use quicktex::dx10::{try_from_format, AlphaMode, DXGIFormat};
use quicktex::error::TextureError;
use quicktex::format::{AlphaFormat, ColorFormat, Format};
use quicktex::pixel_format::{FourCC, PixelFormat, PixelFormatIntermediate};

fn through_bytes(pf: PixelFormat) -> PixelFormat {
    let mut bytes = Vec::new();
    pf.to_intermediate().write(&mut bytes);
    assert_eq!(bytes.len(), 32);
    PixelFormat::from_intermediate(PixelFormatIntermediate::parse(&bytes, 0).unwrap())
}

#[test]
fn pixel_formats_survive_bytes() {
    let cases = [
        PixelFormat::FourCC(FourCC(*b"DXT5")),
        PixelFormat::Uncompressed {
            bit_count: 32,
            color_format: ColorFormat::RGB { r_mask: 0xff0000, g_mask: 0xff00, b_mask: 0xff, srgb: false },
            alpha_format: AlphaFormat::Custom { alpha_mask: 0xff000000 },
        },
        PixelFormat::Uncompressed {
            bit_count: 16,
            color_format: ColorFormat::YUV { y_mask: 1, u_mask: 2, v_mask: 4 },
            alpha_format: AlphaFormat::Opaque,
        },
        PixelFormat::Uncompressed { bit_count: 8, color_format: ColorFormat::L { l_mask: 0xff }, alpha_format: AlphaFormat::Opaque },
        PixelFormat::Uncompressed { bit_count: 8, color_format: ColorFormat::NoColor, alpha_format: AlphaFormat::Custom { alpha_mask: 0xff } },
    ];
    for pf in cases {
        assert_eq!(through_bytes(pf), pf);
    }
}

#[test]
fn four_cc_record_is_bare() {
    let p = PixelFormat::FourCC(FourCC(*b"ATI2")).to_intermediate();
    assert_eq!(p.flags, 0x4);
    assert_eq!(p.bit_count, 0);
    assert_eq!(p.bitmasks, [0; 4]);
}

#[test]
fn known_codes_name_formats() {
    let f = |t: &[u8; 4]| PixelFormat::FourCC(FourCC(*t)).to_format();
    assert_eq!(f(b"DXT1"), Ok(Format::BC1 { srgb: false }));
    assert_eq!(f(b"DXT3"), Ok(Format::BC2 { srgb: false }));
    assert_eq!(f(b"DXT5"), Ok(Format::BC3 { srgb: false }));
    assert_eq!(f(b"BC4U"), Ok(Format::BC4 { signed: false }));
    assert_eq!(f(b"BC4S"), Ok(Format::BC4 { signed: true }));
    assert_eq!(f(b"ATI2"), Ok(Format::BC5 { signed: false }));
    assert_eq!(f(b"BC5U"), Ok(Format::BC5 { signed: false }));
    assert_eq!(f(b"BC5S"), Ok(Format::BC5 { signed: true }));
    assert_eq!(f(b"DX10"), Err(TextureError::Format("cannot convert DX10 tag")));
    assert_eq!(f(b"XYZW"), Err(TextureError::Format("unknown FourCC")));
    assert!(PixelFormat::FourCC(FourCC(*b"DX10")).is_dx10());
    assert!(PixelFormat::dx10().is_dx10());
    assert!(!PixelFormat::FourCC(FourCC(*b"DXT1")).is_dx10());
}

#[test]
fn uncompressed_pitch_is_bytes_per_pixel() {
    let pf = PixelFormat::Uncompressed { bit_count: 24, color_format: ColorFormat::NoColor, alpha_format: AlphaFormat::Opaque };
    assert_eq!(pf.to_format(), Ok(Format::Uncompressed { pitch: 3, color_format: ColorFormat::NoColor, alpha_format: AlphaFormat::Opaque }));
    let odd = PixelFormat::Uncompressed { bit_count: 12, color_format: ColorFormat::NoColor, alpha_format: AlphaFormat::Opaque };
    assert!(matches!(odd.to_format(), Err(TextureError::Format(_))));
}

#[test]
fn formats_pick_canonical_codes() {
    assert_eq!(PixelFormat::from_format(Format::BC5 { signed: false }), Ok(PixelFormat::FourCC(FourCC(*b"ATI2"))));
    assert_eq!(PixelFormat::from_format(Format::BC1 { srgb: true }), Ok(PixelFormat::FourCC(FourCC(*b"DXT1"))));
    let rgb = Format::Uncompressed {
        pitch: 4,
        color_format: ColorFormat::RGB { r_mask: 0xff, g_mask: 0xff00, b_mask: 0xff0000, srgb: false },
        alpha_format: AlphaFormat::Straight { alpha_mask: 0xff000000 },
    };
    assert_eq!(
        PixelFormat::from_format(rgb),
        Ok(PixelFormat::Uncompressed {
            bit_count: 32,
            color_format: ColorFormat::RGB { r_mask: 0xff, g_mask: 0xff00, b_mask: 0xff0000, srgb: false },
            alpha_format: AlphaFormat::Straight { alpha_mask: 0xff000000 },
        })
    );
    let (code, mode) = try_from_format(rgb).unwrap();
    assert_eq!((code, mode), (DXGIFormat(28), AlphaMode::Straight));
    assert_eq!(code.as_format(mode), Ok(rgb));
}

#[test]
fn dxgi_codes_name_formats() {
    assert_eq!(DXGIFormat(77).as_format(AlphaMode::Unknown), Ok(Format::BC3 { srgb: false }));
    assert_eq!(DXGIFormat(72).as_format(AlphaMode::Unknown), Ok(Format::BC1 { srgb: true }));
    assert_eq!(DXGIFormat(81).as_format(AlphaMode::Unknown), Ok(Format::BC4 { signed: true }));
    assert_eq!(DXGIFormat(2).as_format(AlphaMode::Unknown), Err(TextureError::Format("unsupported DXGI format")));
    assert_eq!(try_from_format(Format::BC5 { signed: true }), Ok((DXGIFormat(84), AlphaMode::Unknown)));
    let l8 = Format::Uncompressed { pitch: 1, color_format: ColorFormat::L { l_mask: 0xff }, alpha_format: AlphaFormat::Opaque };
    assert!(matches!(try_from_format(l8), Err(TextureError::Format(_))));
}
