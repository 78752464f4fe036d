use quicktex::dds::{read_texture, write_texture, write_texture_args, DDSHeader, DDSHeaderArgs, DDSHeaderMode};
use quicktex::dimensions::Dimensions;
use quicktex::error::TextureError;
use quicktex::format::{AlphaFormat, ColorFormat, Format};
use quicktex::shape::{CubeFace, ShapeError, TextureIndex};
use quicktex::texture::Texture;

const FLAGS_BASE: u32 = 0x1 | 0x2 | 0x4 | 0x1000;
const FLAG_PITCH: u32 = 0x8;
const FLAG_MIPMAP_COUNT: u32 = 0x2_0000;
const FLAG_LINEAR_SIZE: u32 = 0x8_0000;
const CAPS1_COMPLEX: u32 = 0x8;
const CAPS1_TEXTURE: u32 = 0x1000;
const CAPS1_MIPMAP: u32 = 0x40_0000;

struct PixelFormatFields {
    flags: u32,
    four_cc: [u8; 4],
    bit_count: u32,
    masks: [u32; 4],
}

struct HeaderFields {
    flags: u32,
    height: u32,
    width: u32,
    pitch: u32,
    depth: u32,
    mips: u32,
    pf: PixelFormatFields,
    caps1: u32,
    caps2: u32,
    dx10: Option<[u32; 5]>,
}

fn push(out: &mut Vec<u8>, v: u32) {
    out.extend_from_slice(&v.to_le_bytes());
}

fn header(h: &HeaderFields) -> Vec<u8> {
    let mut out = b"DDS ".to_vec();
    push(&mut out, 124);
    push(&mut out, h.flags);
    push(&mut out, h.height);
    push(&mut out, h.width);
    push(&mut out, h.pitch);
    push(&mut out, h.depth);
    push(&mut out, h.mips);
    out.extend_from_slice(&[0u8; 44]);
    push(&mut out, 32);
    push(&mut out, h.pf.flags);
    out.extend_from_slice(&h.pf.four_cc);
    push(&mut out, h.pf.bit_count);
    for m in h.pf.masks {
        push(&mut out, m);
    }
    push(&mut out, h.caps1);
    push(&mut out, h.caps2);
    push(&mut out, 0);
    push(&mut out, 0);
    out.extend_from_slice(&[0u8; 4]);
    if let Some(d) = h.dx10 {
        for v in d {
            push(&mut out, v);
        }
    }
    out
}

fn payload(len: usize, seed: u8) -> Vec<u8> {
    (0..len).map(|i| (i as u8).wrapping_mul(31).wrapping_add(seed)).collect()
}

fn four_cc_pf(tag: &[u8; 4]) -> PixelFormatFields {
    PixelFormatFields { flags: 0x4, four_cc: *tag, bit_count: 0, masks: [0; 4] }
}

/// A 16×16 texture with five mips in one of the sample formats.
fn peppers16(format_name: &str) -> Vec<u8> {
    let (pf, sizes, size_flag, linear): (PixelFormatFields, Vec<usize>, u32, u32) = match format_name {
        "bc1" => (four_cc_pf(b"DXT1"), vec![128, 32, 8, 8, 8], FLAG_LINEAR_SIZE, 128),
        "bc4" => (four_cc_pf(b"BC4U"), vec![128, 32, 8, 8, 8], FLAG_LINEAR_SIZE, 128),
        "bc5" => (four_cc_pf(b"ATI2"), vec![256, 64, 16, 16, 16], FLAG_LINEAR_SIZE, 256),
        "lumi" => (
            PixelFormatFields { flags: 0x2_0000, four_cc: [0; 4], bit_count: 8, masks: [0xff, 0, 0, 0] },
            vec![256, 64, 16, 4, 1],
            FLAG_PITCH,
            16,
        ),
        _ => (
            PixelFormatFields { flags: 0x40, four_cc: [0; 4], bit_count: 24, masks: [0xff_0000, 0xff00, 0xff, 0] },
            vec![768, 192, 48, 12, 3],
            FLAG_PITCH,
            48,
        ),
    };
    let mut out = header(&HeaderFields {
        flags: FLAGS_BASE | size_flag | FLAG_MIPMAP_COUNT,
        height: 16,
        width: 16,
        pitch: linear,
        depth: 0,
        mips: 5,
        pf,
        caps1: CAPS1_COMPLEX | CAPS1_TEXTURE | CAPS1_MIPMAP,
        caps2: 0,
        dx10: None,
    });
    for (i, s) in sizes.iter().enumerate() {
        out.extend(payload(*s, i as u8));
    }
    out
}

/// A 128×128 RGB cubemap with all six faces and no mips.
fn cubemap() -> Vec<u8> {
    let mut out = header(&HeaderFields {
        flags: FLAGS_BASE | FLAG_PITCH,
        height: 128,
        width: 128,
        pitch: 384,
        depth: 0,
        mips: 0,
        pf: PixelFormatFields { flags: 0x40, four_cc: [0; 4], bit_count: 24, masks: [0xff, 0xff00, 0xff_0000, 0] },
        caps1: CAPS1_COMPLEX | CAPS1_TEXTURE,
        caps2: 0xfe00,
        dx10: None,
    });
    for face in 0..6u8 {
        out.extend(payload(128 * 128 * 3, face));
    }
    out
}

fn roundtrip(inbuffer: Vec<u8>) {
    let (in_texture, used) = read_texture(&inbuffer).expect("read");
    assert_eq!(used, inbuffer.len(), "Data left unread in file");
    let out_header = DDSHeader::from_texture(&in_texture).expect("header");
    let mut outbuffer = out_header.to_intermediate().to_bytes();
    outbuffer.extend(out_header.write_surfaces(&in_texture.surfaces).expect("surfaces"));

    assert_eq!(outbuffer[..4], b"DDS "[..], "Magic bytes are not 'DDS '");
    assert_eq!(outbuffer[0..28], inbuffer[0..28], "Header data doesnt match");
    assert_eq!(outbuffer[76..120], inbuffer[76..120], "Header data doesnt match");
    assert_eq!(outbuffer[128..], inbuffer[128..], "Surface data doesnt match");
}

#[test]
fn roundtrip_texture() {
    for format_name in ["bc1", "bc4", "bc5", "lumi", "rgb"] {
        roundtrip(peppers16(format_name));
    }
}

#[test]
fn roundtrip_cubemap() {
    roundtrip(cubemap());
}

#[test]
fn read_peppers_formats() {
    for format_name in ["bc1", "bc4", "bc5", "lumi", "rgb"] {
        let bytes = peppers16(format_name);
        let (texture, used) = read_texture(&bytes).unwrap();
        match (format_name, texture.format) {
            ("bc1", Format::BC1 { srgb: false }) => {}
            ("bc4", Format::BC4 { signed: false }) => {}
            ("bc5", Format::BC5 { signed: false }) => {}
            ("lumi", Format::Uncompressed { color_format: ColorFormat::L { .. }, alpha_format: AlphaFormat::Opaque, .. }) => {}
            ("rgb", Format::Uncompressed { color_format: ColorFormat::RGB { .. }, .. }) => {}
            (_, format) => panic!("Unexpect format for `peppers16 {format_name}.dds`: \n{format:#?}"),
        }
        assert_eq!(texture.mips(), Some(5));
        assert_eq!(texture.faces(), None);
        assert_eq!(texture.layers(), None);
        assert_eq!(texture.dimensions(), Dimensions::_2D(16, 16));
        assert_eq!(used, bytes.len(), "Data left unread in file");
    }
}

fn mip_sizes(texture: &Texture) -> Vec<usize> {
    (0..texture.mips().unwrap())
        .map(|m| {
            let level = texture.get(TextureIndex::Mip(m)).unwrap();
            level.try_into_surface().unwrap().bytes().len()
        })
        .collect()
}

#[test]
fn bc1_mip_sizes() {
    let (texture, _) = read_texture(&peppers16("bc1")).unwrap();
    assert_eq!(texture.format, Format::BC1 { srgb: false });
    assert_eq!(mip_sizes(&texture), vec![128, 32, 8, 8, 8]);
}

#[test]
fn bc4_mip_sizes() {
    let (texture, _) = read_texture(&peppers16("bc4")).unwrap();
    assert_eq!(texture.format, Format::BC4 { signed: false });
    assert_eq!(mip_sizes(&texture), vec![128, 32, 8, 8, 8]);
}

#[test]
fn bc5_first_mip_size() {
    let (texture, _) = read_texture(&peppers16("bc5")).unwrap();
    assert_eq!(texture.format, Format::BC5 { signed: false });
    assert_eq!(mip_sizes(&texture)[0], 256);
}

#[test]
fn read_cubemap_faces() {
    let bytes = cubemap();
    let (texture, used) = read_texture(&bytes).unwrap();
    assert_eq!(used, bytes.len(), "Data left unread in file");
    assert_eq!(
        texture.format,
        Format::Uncompressed {
            pitch: 3,
            color_format: ColorFormat::RGB { r_mask: 0xFF, g_mask: 0xFF00, b_mask: 0xFF0000, srgb: false },
            alpha_format: AlphaFormat::Opaque
        }
    );
    assert_eq!(texture.mips(), None, "nvassemble never generates mipmaps");
    assert_eq!(texture.layers(), None, "cubemap should not have layers");
    let faces = texture.faces().expect("missing faces");
    assert_eq!(
        faces,
        vec![
            CubeFace::PositiveX,
            CubeFace::NegativeX,
            CubeFace::PositiveY,
            CubeFace::NegativeY,
            CubeFace::PositiveZ,
            CubeFace::NegativeZ
        ]
    );
    for (i, face) in faces.iter().enumerate() {
        let surface = texture.get(TextureIndex::Face(*face)).unwrap().try_into_surface().expect("Cubemap faces should be surface primitives");
        assert_eq!(surface.dimensions(), Dimensions::_2D(128, 128), "Incorrect image dimensions");
        assert_eq!(surface.bytes().len(), 49152, "Incorrect buffer size");
        assert_eq!(*surface.bytes(), payload(49152, i as u8));
    }
    let out = write_texture(&texture).unwrap();
    assert_eq!(out[128..], bytes[128..]);
}

fn dx10_array_cube() -> Vec<u8> {
    let mut out = header(&HeaderFields {
        flags: FLAGS_BASE | FLAG_LINEAR_SIZE | FLAG_MIPMAP_COUNT,
        height: 64,
        width: 64,
        pitch: 4096,
        depth: 0,
        mips: 3,
        pf: four_cc_pf(b"DX10"),
        caps1: CAPS1_COMPLEX | CAPS1_TEXTURE | CAPS1_MIPMAP,
        caps2: 0xfe00,
        dx10: Some([77, 3, 0x4, 4, 0]),
    });
    let mut seed = 0u8;
    for _layer in 0..4 {
        for _face in 0..6 {
            for size in [4096usize, 1024, 256] {
                out.extend(payload(size, seed));
                seed = seed.wrapping_add(1);
            }
        }
    }
    out
}

#[test]
fn read_dx10_array_cubemap() {
    let bytes = dx10_array_cube();
    let (texture, used) = read_texture(&bytes).unwrap();
    assert_eq!(used, bytes.len());
    assert_eq!(texture.format, Format::BC3 { srgb: false });
    assert_eq!(texture.layers(), Some(4));
    assert_eq!(texture.faces().map(|f| f.len()), Some(6));
    assert_eq!(texture.mips(), Some(3));
    let faces = texture.faces().unwrap();
    let mut seed = 0u8;
    let mut count = 0;
    for l in 0..4 {
        let layer = texture.get(TextureIndex::Layer(l)).unwrap();
        for f in &faces {
            let face = layer.get(TextureIndex::Face(*f)).unwrap();
            for (m, size) in [4096usize, 1024, 256].iter().enumerate() {
                let surface = face.get(TextureIndex::Mip(m)).unwrap().try_into_surface().unwrap();
                assert_eq!(*surface.bytes(), payload(*size, seed));
                seed = seed.wrapping_add(1);
                count += 1;
            }
        }
    }
    assert_eq!(count, 72);
    let out = write_texture(&texture).unwrap();
    assert_eq!(out[148..], bytes[148..]);
}

fn two_layer_texture() -> Texture {
    let bytes = dx10_array_cube();
    let (texture, _) = read_texture(&bytes).unwrap();
    let l0 = texture.get(TextureIndex::Layer(0)).unwrap();
    let l1 = texture.get(TextureIndex::Layer(1)).unwrap();
    Texture::try_from_layers(vec![l0, l1]).unwrap()
}

#[test]
fn array_needs_dx10_header() {
    let texture = two_layer_texture();
    let forced = DDSHeader::from_texture_args(&texture, &DDSHeaderArgs { mode: DDSHeaderMode::ForceLegacy });
    assert!(matches!(forced, Err(TextureError::Capability(_))));
    let preferred = DDSHeader::from_texture_args(&texture, &DDSHeaderArgs { mode: DDSHeaderMode::PreferLegacy }).unwrap();
    assert!(matches!(preferred, DDSHeader::DX10 { layers: Some(2), is_cubemap: true, .. }));
    let written = write_texture_args(&texture, &DDSHeaderArgs::default()).unwrap();
    let (back, _) = read_texture(&written).unwrap();
    assert_eq!(back.layers(), Some(2));
    assert!(matches!(write_texture_args(&texture, &DDSHeaderArgs { mode: DDSHeaderMode::ForceLegacy }), Err(TextureError::Capability(_))));
}

#[test]
fn one_by_one_has_one_mip() {
    let mut bytes = header(&HeaderFields {
        flags: FLAGS_BASE | FLAG_LINEAR_SIZE | FLAG_MIPMAP_COUNT,
        height: 1,
        width: 1,
        pitch: 8,
        depth: 0,
        mips: 4,
        pf: four_cc_pf(b"DXT1"),
        caps1: CAPS1_COMPLEX | CAPS1_TEXTURE | CAPS1_MIPMAP,
        caps2: 0,
        dx10: None,
    });
    bytes.extend(payload(8, 0));
    let (texture, used) = read_texture(&bytes).unwrap();
    assert_eq!(texture.mips(), Some(1));
    assert_eq!(used, 136);
}

#[test]
fn empty_cubemap_is_rejected() {
    let bytes = header(&HeaderFields {
        flags: FLAGS_BASE | FLAG_LINEAR_SIZE,
        height: 4,
        width: 4,
        pitch: 8,
        depth: 0,
        mips: 0,
        pf: four_cc_pf(b"DXT1"),
        caps1: CAPS1_COMPLEX | CAPS1_TEXTURE,
        caps2: 0x200,
        dx10: None,
    });
    assert!(matches!(read_texture(&bytes), Err(TextureError::Shape(ShapeError::Empty("cube")))));
}

#[test]
fn zero_mip_count_means_no_mips() {
    let mut bytes = header(&HeaderFields {
        flags: FLAGS_BASE | FLAG_LINEAR_SIZE | FLAG_MIPMAP_COUNT,
        height: 4,
        width: 4,
        pitch: 8,
        depth: 0,
        mips: 0,
        pf: four_cc_pf(b"DXT1"),
        caps1: CAPS1_TEXTURE,
        caps2: 0,
        dx10: None,
    });
    bytes.extend(payload(8, 3));
    let (texture, _) = read_texture(&bytes).unwrap();
    assert_eq!(texture.mips(), None);
    assert!(texture.try_into_surface().is_some());
}

#[test]
fn header_errors() {
    let mut bad_magic = peppers16("bc1");
    bad_magic[0] = b'X';
    assert!(matches!(read_texture(&bad_magic), Err(TextureError::Header(_))));

    let mut bad_size = peppers16("bc1");
    bad_size[4] = 100;
    assert!(matches!(read_texture(&bad_size), Err(TextureError::Header(_))));

    let mut bad_flags = peppers16("bc1");
    bad_flags[11] = 0x40;
    assert!(matches!(read_texture(&bad_flags), Err(TextureError::Header(_))));

    assert!(matches!(read_texture(&peppers16("bc1")[..100]), Err(TextureError::Header(_))));
}

#[test]
fn truncated_surfaces_are_io_errors() {
    let bytes = peppers16("bc1");
    assert!(matches!(read_texture(&bytes[..bytes.len() - 1]), Err(TextureError::IO(_))));
}

#[test]
fn zero_width_is_a_dimension_error() {
    let mut bytes = peppers16("bc1");
    bytes[16..20].copy_from_slice(&0u32.to_le_bytes());
    assert!(matches!(read_texture(&bytes), Err(TextureError::Dimensions(_))));
}

#[test]
fn unknown_four_cc_is_a_format_error() {
    let mut bytes = peppers16("bc1");
    bytes[84..88].copy_from_slice(b"ABCD");
    assert!(matches!(read_texture(&bytes), Err(TextureError::Format("unknown FourCC"))));
}

#[test]
fn odd_bit_count_is_a_format_error() {
    let mut bytes = peppers16("rgb");
    bytes[88..92].copy_from_slice(&20u32.to_le_bytes());
    assert!(matches!(read_texture(&bytes), Err(TextureError::Format(_))));
}

#[test]
fn dx10_cube_bit_ignores_other_misc_bits() {
    let mut bytes = dx10_array_cube();
    bytes[136..140].copy_from_slice(&0x5u32.to_le_bytes());
    let (texture, _) = read_texture(&bytes).unwrap();
    assert_eq!(texture.faces().map(|f| f.len()), Some(6));
}
