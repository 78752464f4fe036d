use quicktex::dimensions::{DimensionError, Dimensions};
use quicktex::format::{AlphaFormat, ColorFormat, Format};
use quicktex::shape::{CubeFace, ShapeError, TextureIndex, TextureShapeNode};
use quicktex::error::TextureError;
use quicktex::texture::{Surface, SurfaceReader, Texture};

fn surface(dims: Dimensions, len: usize, seed: u8) -> TextureShapeNode {
    TextureShapeNode::from_surface(Surface::new(dims, vec![seed; len]))
}

fn chain(w: u32, h: u32) -> Vec<TextureShapeNode> {
    let mut out = Vec::new();
    let mut it = Dimensions::_2D(w, h).mips();
    while let Some(d) = it.next() {
        out.push(surface(d, 1, 0));
    }
    out
}

#[test]
fn mip_chain_halves_to_one() {
    let mut it = Dimensions::_2D(16, 8).mips();
    let mut seen = Vec::new();
    while let Some(d) = it.next() {
        seen.push(d);
    }
    assert_eq!(
        seen,
        vec![
            Dimensions::_2D(16, 8),
            Dimensions::_2D(8, 4),
            Dimensions::_2D(4, 2),
            Dimensions::_2D(2, 1),
            Dimensions::_2D(1, 1)
        ]
    );
    for pair in seen.windows(2) {
        assert!(pair[1].product() < pair[0].product());
    }
    assert_eq!(it.next(), None);
}

#[test]
fn unit_mip_chain_has_one_element() {
    let mut it = Dimensions::_2D(1, 1).mips();
    assert_eq!(it.next(), Some(Dimensions::_2D(1, 1)));
    assert_eq!(it.next(), None);
}

#[test]
fn blocks_round_up() {
    let four = Dimensions::_2D(4, 4);
    assert_eq!(Dimensions::_2D(5, 9).blocks(four), Dimensions::_2D(2, 3));
    assert_eq!(Dimensions::_3D(5, 9, 3).blocks(four), Dimensions::_3D(2, 3, 3));
    assert_eq!(Dimensions::_1D(7).blocks(four), Dimensions::_2D(2, 1));
    assert_eq!(Dimensions::_2D(16, 16).blocks(Dimensions::_1D(4)), Dimensions::_2D(4, 16));
}

#[test]
fn accessors_default_to_one() {
    let d = Dimensions::_1D(7);
    assert_eq!((d.len(), d.width(), d.height(), d.depth(), d.product()), (1, 7, 1, 1, 7));
    let d = Dimensions::_3D(2, 3, 4);
    assert_eq!((d.len(), d.width(), d.height(), d.depth(), d.product()), (3, 2, 3, 4, 24));
}

#[test]
fn dimensions_from_slices() {
    assert_eq!(Dimensions::try_from_slice(&[4, 5]), Ok(Dimensions::_2D(4, 5)));
    assert_eq!(Dimensions::try_from_slice(&[]), Err(DimensionError::Dimensionality(0)));
    assert_eq!(Dimensions::try_from_slice(&[1, 2, 3, 4]), Err(DimensionError::Dimensionality(4)));
    assert_eq!(Dimensions::try_from_slice(&[0, 4]), Err(DimensionError::Invalid("width")));
    assert_eq!(Dimensions::try_from_slice(&[4, 4, 0]), Err(DimensionError::Invalid("depth")));
}

#[test]
fn surface_sizes() {
    let d16 = Dimensions::_2D(16, 16);
    assert_eq!(Format::BC1 { srgb: false }.size_for(d16), 128);
    assert_eq!(Format::BC4 { signed: true }.size_for(d16), 128);
    assert_eq!(Format::BC5 { signed: false }.size_for(d16), 256);
    assert_eq!(Format::BC3 { srgb: false }.size_for(Dimensions::_2D(1, 1)), 16);
    assert_eq!(Format::BC1 { srgb: false }.size_for(Dimensions::_3D(8, 8, 3)), 96);
    let rgb = Format::Uncompressed {
        pitch: 3,
        color_format: ColorFormat::RGB { r_mask: 0xff, g_mask: 0xff00, b_mask: 0xff0000, srgb: false },
        alpha_format: AlphaFormat::Opaque,
    };
    assert_eq!(rgb.size_for(Dimensions::_2D(128, 128)), 49152);
    assert_eq!(rgb.checked_size_for(Dimensions::_2D(4, 4)), Some(48));
}

#[test]
fn mipmap_of_a_chain() {
    let mips = TextureShapeNode::try_from_mips(chain(8, 8)).unwrap();
    assert_eq!(mips.mips(), Some(4));
    assert_eq!(mips.dimensions(), Dimensions::_2D(8, 8));
    let level = mips.get(TextureIndex::Mip(2)).unwrap();
    assert_eq!(level.dimensions(), Dimensions::_2D(2, 2));
    assert!(level.is_surface());
    assert!(mips.get(TextureIndex::Mip(4)).is_none());
    assert!(mips.get(TextureIndex::Layer(0)).is_none());
}

#[test]
fn mipmap_prefix_is_accepted() {
    let mut levels = chain(8, 8);
    levels.truncate(2);
    assert_eq!(TextureShapeNode::try_from_mips(levels).unwrap().mips(), Some(2));
}

#[test]
fn broken_mip_chain_is_rejected() {
    let levels = vec![surface(Dimensions::_2D(8, 8), 1, 0), surface(Dimensions::_2D(4, 2), 1, 0)];
    assert!(matches!(TextureShapeNode::try_from_mips(levels), Err(ShapeError::InvalidMipChain)));
    let too_many = vec![surface(Dimensions::_2D(1, 1), 1, 0), surface(Dimensions::_2D(1, 1), 1, 0)];
    assert!(matches!(TextureShapeNode::try_from_mips(too_many), Err(ShapeError::InvalidMipChain)));
}

#[test]
fn empty_and_nested_shapes_are_rejected() {
    assert!(matches!(TextureShapeNode::try_from_mips(vec![]), Err(ShapeError::Empty("mipmap"))));
    assert!(matches!(TextureShapeNode::try_from_layers(vec![]), Err(ShapeError::Empty("array"))));
    assert!(matches!(TextureShapeNode::try_from_faces(vec![]), Err(ShapeError::Empty("cube"))));
    let mips = TextureShapeNode::try_from_mips(chain(2, 2)).unwrap();
    let nested = TextureShapeNode::try_from_mips(vec![mips]);
    assert!(matches!(nested, Err(ShapeError::InvalidMipChain) | Err(ShapeError::Nested("mipmap"))));
    let layer = TextureShapeNode::try_from_layers(vec![surface(Dimensions::_2D(2, 2), 1, 0)]).unwrap();
    assert!(matches!(TextureShapeNode::try_from_layers(vec![layer]), Err(ShapeError::Nested("array"))));
}

#[test]
fn duplicate_faces_are_rejected() {
    let d = Dimensions::_2D(4, 4);
    let faces = vec![
        (CubeFace::PositiveX, surface(d, 1, 0)),
        (CubeFace::NegativeY, surface(d, 1, 1)),
        (CubeFace::PositiveX, surface(d, 1, 2)),
    ];
    assert!(matches!(TextureShapeNode::try_from_faces(faces), Err(ShapeError::DuplicateFaces)));
}

#[test]
fn non_uniform_children_are_rejected() {
    let faces = vec![
        (CubeFace::PositiveX, surface(Dimensions::_2D(4, 4), 1, 0)),
        (CubeFace::NegativeX, surface(Dimensions::_2D(8, 8), 1, 1)),
    ];
    assert!(matches!(TextureShapeNode::try_from_faces(faces), Err(ShapeError::NonUniform("dimensions"))));
    let layers = vec![
        TextureShapeNode::try_from_mips(chain(4, 4)).unwrap(),
        surface(Dimensions::_2D(4, 4), 1, 0),
    ];
    assert!(matches!(TextureShapeNode::try_from_layers(layers), Err(ShapeError::NonUniform("mips"))));
}

#[test]
fn cube_slicing_keeps_kind_and_collapses() {
    let d = Dimensions::_2D(4, 4);
    let cube = TextureShapeNode::try_from_faces(vec![
        (CubeFace::NegativeZ, TextureShapeNode::try_from_mips(chain(4, 4)).unwrap()),
        (CubeFace::PositiveY, TextureShapeNode::try_from_mips(chain(4, 4)).unwrap()),
    ])
    .unwrap();
    assert_eq!(cube.faces(), Some(vec![CubeFace::NegativeZ, CubeFace::PositiveY]));
    assert_eq!(cube.mips(), Some(3));
    let level = cube.get(TextureIndex::Mip(1)).unwrap();
    assert_eq!(level.faces(), Some(vec![CubeFace::NegativeZ, CubeFace::PositiveY]));
    assert_eq!(level.mips(), None);
    assert_eq!(level.dimensions(), Dimensions::_2D(2, 2));
    let face = cube.get(TextureIndex::Face(CubeFace::PositiveY)).unwrap();
    assert_eq!(face.faces(), None);
    assert_eq!(face.mips(), Some(3));
    assert!(cube.get(TextureIndex::Face(CubeFace::PositiveX)).is_none());
    assert_eq!(d, cube.dimensions());
}

#[test]
fn texture_formats_must_agree() {
    let a = Texture { format: Format::BC1 { srgb: false }, surfaces: surface(Dimensions::_2D(4, 4), 8, 0) };
    let b = Texture { format: Format::BC4 { signed: false }, surfaces: surface(Dimensions::_2D(4, 4), 8, 0) };
    assert!(matches!(Texture::try_from_layers(vec![a, b]), Err(ShapeError::NonUniform("format"))));
}

#[test]
fn face_index_wraps() {
    assert_eq!(TextureIndex::Face(CubeFace::NegativeZ).next(), TextureIndex::Face(CubeFace::PositiveX));
    assert_eq!(TextureIndex::Face(CubeFace::PositiveX).next(), TextureIndex::Face(CubeFace::NegativeX));
    assert_eq!(TextureIndex::Mip(3).next(), TextureIndex::Mip(4));
    assert_eq!(TextureIndex::Layer(0).next(), TextureIndex::Layer(1));
}

#[test]
fn surface_clone_shares_bytes() {
    let s = Surface::new(Dimensions::_2D(2, 2), vec![1, 2, 3, 4]);
    let c = s.clone();
    assert_eq!(c.bytes(), &vec![1, 2, 3, 4]);
    assert!(std::rc::Rc::ptr_eq(&s.buffer, &c.buffer));
}

fn cube_of_mips() -> TextureShapeNode {
    TextureShapeNode::try_from_faces(vec![
        (CubeFace::NegativeZ, TextureShapeNode::try_from_mips(chain(4, 4)).unwrap()),
        (CubeFace::PositiveY, TextureShapeNode::try_from_mips(chain(4, 4)).unwrap()),
    ])
    .unwrap()
}

#[test]
fn iteration_covers_every_surface() {
    let cube = cube_of_mips();
    assert_eq!(cube.len(), 6);
    let all = cube.iter();
    assert_eq!(all.len(), 6);
    let keys: Vec<_> = all.iter().map(|e| (e.mip, e.face, e.layer)).collect();
    assert_eq!(
        keys,
        vec![
            (Some(0), Some(CubeFace::NegativeZ), None),
            (Some(0), Some(CubeFace::PositiveY), None),
            (Some(1), Some(CubeFace::NegativeZ), None),
            (Some(1), Some(CubeFace::PositiveY), None),
            (Some(2), Some(CubeFace::NegativeZ), None),
            (Some(2), Some(CubeFace::PositiveY), None),
        ]
    );
    assert_eq!(all[2].surface.dimensions(), Dimensions::_2D(2, 2));
}

#[test]
fn iterators_pad_missing_structure() {
    let cube = cube_of_mips();
    let layers = cube.iter_layers();
    assert_eq!(layers.len(), 1);
    assert_eq!(layers[0].0, None);
    let faces = cube.iter_faces();
    assert_eq!(faces.iter().map(|(f, _)| *f).collect::<Vec<_>>(), vec![Some(CubeFace::NegativeZ), Some(CubeFace::PositiveY)]);
    assert_eq!(faces[1].1.mips(), Some(3));
    let mips = cube.iter_mips();
    assert_eq!(mips.iter().map(|(m, _)| *m).collect::<Vec<_>>(), vec![Some(0), Some(1), Some(2)]);
    assert_eq!(mips[1].1.faces().map(|f| f.len()), Some(2));
}

#[test]
fn primary_is_first_canonical_face_at_the_top() {
    let cube = cube_of_mips();
    let p = cube.primary();
    assert_eq!(p.dimensions(), Dimensions::_2D(4, 4));
    let expected = cube.get(TextureIndex::Face(CubeFace::PositiveY)).unwrap().get(TextureIndex::Mip(0)).unwrap();
    assert!(std::rc::Rc::ptr_eq(&p.buffer, &expected.try_into_surface().unwrap().buffer));
}

#[test]
fn first_inner_descends_one_level() {
    let cube = cube_of_mips();
    assert_eq!(cube.first_inner().mips(), Some(3));
    assert_eq!(cube.first_inner().faces(), None);
}

#[test]
fn reader_reports_errors_outside_in() {
    let bytes = vec![7u8; 64];
    let bc1 = Format::BC1 { srgb: false };
    let d = Dimensions::_2D(4, 4);
    let mut r = SurfaceReader::new(bc1, &bytes);
    assert!(matches!(r.read_mips(d, Some(0)), Err(TextureError::Shape(ShapeError::Empty("mipmap")))));
    let mut r = SurfaceReader::new(bc1, &bytes);
    assert!(matches!(r.read_faces(d, &Some(vec![]), Some(0)), Err(TextureError::Shape(ShapeError::Empty("cube")))));
    let mut r = SurfaceReader::new(bc1, &bytes);
    assert!(matches!(r.read_faces(d, &Some(vec![CubeFace::PositiveX]), Some(0)), Err(TextureError::Shape(ShapeError::Empty("mipmap")))));
    let mut r = SurfaceReader::new(bc1, &bytes);
    assert!(matches!(r.read_layers(d, Some(0), &Some(vec![]), Some(0)), Err(TextureError::Shape(ShapeError::Empty("array")))));
    let mut r = SurfaceReader::new(bc1, &bytes);
    assert!(matches!(r.read_layers(d, Some(9), &None, None), Err(TextureError::IO(_))));
}

#[test]
fn repeated_faces_are_found_after_reading() {
    let bc1 = Format::BC1 { srgb: false };
    let d = Dimensions::_2D(4, 4);
    let twice = Some(vec![CubeFace::PositiveX, CubeFace::PositiveX]);
    let short = vec![0u8; 8];
    let mut r = SurfaceReader::new(bc1, &short);
    assert!(matches!(r.read_faces(d, &twice, None), Err(TextureError::IO(_))));
    let enough = vec![0u8; 16];
    let mut r = SurfaceReader::new(bc1, &enough);
    assert!(matches!(r.read_faces(d, &twice, None), Err(TextureError::Shape(ShapeError::DuplicateFaces))));
    let mut r = SurfaceReader::new(bc1, &enough);
    assert!(matches!(r.read_layers(d, Some(3), &twice, None), Err(TextureError::Shape(ShapeError::DuplicateFaces))));
}

#[test]
fn reader_consumes_in_order() {
    let bytes: Vec<u8> = (0..48u8).collect();
    let mut r = SurfaceReader::new(Format::BC1 { srgb: false }, &bytes);
    let faces = Some(vec![CubeFace::NegativeY, CubeFace::PositiveZ]);
    let t = r.read_layers(Dimensions::_2D(4, 4), Some(3), &faces, None).unwrap();
    assert_eq!(r.position, 48);
    assert_eq!(t.layers(), Some(3));
    let s = t.get(TextureIndex::Layer(1)).unwrap().get(TextureIndex::Face(CubeFace::PositiveZ)).unwrap();
    assert_eq!(*s.try_into_surface().unwrap().bytes(), (24..32u8).collect::<Vec<u8>>());
}
