//! Surfaces and textures: a format together with a tree of surfaces.

use std::rc::Rc;

use vstd::prelude::*;

use crate::dimensions::Dimensions;
use crate::error::TextureError;
use crate::format::Format;
use crate::shape::{
    entry_faces, entry_trees, entry_views, node_views, opt_nat, CubeFace, ShapeAspect, ShapeError,
    ShapeView, TextureIndex, TextureShapeNode,
};

verus! {

/// One surface: its dimensions and its bytes, shared between the textures
/// that slicing makes from one another.
#[derive(Debug)]
pub struct Surface {
    pub dimensions: Dimensions,
    pub buffer: Rc<Vec<u8>>,
}

/// What a [`Surface`] holds, as mathematical values.
pub struct SurfaceView {
    pub dimensions: Dimensions,
    pub bytes: Seq<u8>,
}

impl View for Surface {
    type V = SurfaceView;

    open spec fn view(&self) -> SurfaceView {
        SurfaceView { dimensions: self.dimensions, bytes: self.buffer@ }
    }
}

/// Relies on `Rc::clone`: the new handle points at the same bytes.
#[verifier::external_body]
fn share_bytes(buffer: &Rc<Vec<u8>>) -> (r: Rc<Vec<u8>>)
    ensures
        r == *buffer,
{
    Rc::clone(buffer)
}

impl Surface {
    /// A surface of `dimensions` holding `bytes`.
    pub fn new(dimensions: Dimensions, bytes: Vec<u8>) -> (r: Surface)
        ensures
            r@ == (SurfaceView { dimensions, bytes: bytes@ }),
    {
        Surface { dimensions, buffer: Rc::new(bytes) }
    }

    pub fn dimensions(&self) -> (r: Dimensions)
        ensures
            r == self@.dimensions,
    {
        self.dimensions
    }

    /// The surface's bytes.
    pub fn bytes(&self) -> (r: &Vec<u8>)
        ensures
            r@ == self@.bytes,
    {
        &*self.buffer
    }
}

impl Clone for Surface {
    /// Another handle on the same bytes; nothing is copied.
    fn clone(&self) -> (r: Surface)
        ensures
            r@ == self@,
    {
        Surface { dimensions: self.dimensions, buffer: share_bytes(&self.buffer) }
    }
}

/// Every surface of `t` holds exactly as many bytes as `format` needs for its dimensions.
pub open spec fn sizes_match(format: Format, t: ShapeView) -> bool
    decreases t,
{
    match t {
        ShapeView::Surface(s) => s.bytes.len() == format.spec_size_for(s.dimensions),
        ShapeView::Array(v) => forall|i: int| 0 <= i < v.len() ==> sizes_match(format, #[trigger] v[i]),
        ShapeView::MipMap(v) => forall|i: int| 0 <= i < v.len() ==> sizes_match(format, #[trigger] v[i]),
        ShapeView::CubeMap(v) => forall|i: int| 0 <= i < v.len() ==> sizes_match(format, (#[trigger] v[i]).1),
    }
}

/// Every part of a tree whose surfaces have their sizes has them too.
pub proof fn lemma_get_sizes(format: Format, t: ShapeView, idx: TextureIndex)
    requires
        sizes_match(format, t),
        t.get(idx) is Some,
    ensures
        sizes_match(format, t.get(idx)->Some_0),
    decreases t,
{
    match t {
        ShapeView::Surface(_) => {},
        ShapeView::Array(v) => {
            if !(idx is Layer) {
                let w = t.get(idx)->Some_0->Array_0;
                assert forall|i: int| 0 <= i < w.len() implies sizes_match(format, #[trigger] w[i]) by {
                    lemma_get_sizes(format, v[i], idx);
                }
            }
        },
        ShapeView::MipMap(v) => {
            if !(idx is Mip) {
                let w = t.get(idx)->Some_0->MipMap_0;
                assert forall|i: int| 0 <= i < w.len() implies sizes_match(format, #[trigger] w[i]) by {
                    lemma_get_sizes(format, v[i], idx);
                }
            }
        },
        ShapeView::CubeMap(v) => {
            if let TextureIndex::Face(f) = idx {
                let i = choose|i: int| 0 <= i < v.len() && v[i].0 == f;
                crate::shape::lemma_first_entry(v, f, i);
            } else {
                let w = t.get(idx)->Some_0->CubeMap_0;
                assert forall|i: int| 0 <= i < w.len() implies sizes_match(format, (#[trigger] w[i]).1) by {
                    lemma_get_sizes(format, v[i].1, idx);
                }
            }
        },
    }
}

/// An encoded texture: a format and one or more surfaces in a shape.
#[derive(Debug)]
pub struct Texture {
    pub format: Format,
    pub surfaces: TextureShapeNode,
}

impl Texture {
    /// The shape invariants hold and every surface has the size its format needs.
    pub open spec fn wf(&self) -> bool {
        self.surfaces@.wf() && sizes_match(self.format, self.surfaces@)
    }

    /// The dimensions of the largest surface.
    pub fn dimensions(&self) -> (r: Dimensions)
        ensures
            r == self.surfaces@.dims(),
    {
        self.surfaces.dimensions()
    }

    /// The number of mip levels, if the texture has a mipmap.
    pub fn mips(&self) -> (r: Option<usize>)
        ensures
            opt_nat(r) == self.surfaces@.mips(),
    {
        self.surfaces.mips()
    }

    /// The number of array layers, if the texture is an array.
    pub fn layers(&self) -> (r: Option<usize>)
        ensures
            opt_nat(r) == self.surfaces@.layers(),
    {
        self.surfaces.layers()
    }

    /// The faces of the cubemap, in stored order, if the texture has one.
    pub fn faces(&self) -> (r: Option<Vec<CubeFace>>)
        ensures
            opt_faces(r) == self.surfaces@.faces(),
    {
        self.surfaces.faces()
    }

    /// The part of the texture that `index` selects, in the same format; a
    /// part of a valid texture is valid.
    pub fn get(&self, index: TextureIndex) -> (r: Option<Texture>)
        ensures
            r is None <==> self.surfaces@.get(index) is None,
            r matches Some(t) ==> t.format == self.format && self.surfaces@.get(index) == Some(
                t.surfaces@,
            ),
            r matches Some(t) ==> (self.wf() ==> t.wf()),
    {
        proof {
            if self.wf() && self.surfaces@.get(index) is Some {
                crate::shape::lemma_get_wf(self.surfaces@, index);
                lemma_get_sizes(self.format, self.surfaces@, index);
            }
        }
        match self.surfaces.get(index) {
            Some(surfaces) => Some(Texture { format: self.format, surfaces }),
            None => None,
        }
    }

    /// The surface, if the texture is a single surface.
    pub fn try_into_surface(self) -> (r: Option<Surface>)
        ensures
            self.surfaces@ is Surface <==> r is Some,
            r matches Some(s) ==> self.surfaces@ == ShapeView::Surface(s@),
    {
        self.surfaces.try_into_surface()
    }

    /// Whether all `textures` share the first one's format; true for none.
    fn same_format(textures: &Vec<Texture>) -> (r: bool)
        ensures
            r == forall|i: int| 0 <= i < textures@.len() ==> (#[trigger] textures@[i]).format == textures@[0].format,
    {
        let mut i: usize = 0;
        while i < textures.len()
            invariant
                i <= textures.len(),
                forall|j: int| 0 <= j < i ==> (#[trigger] textures@[j]).format == textures@[0].format,
            decreases textures.len() - i,
        {
            if !(textures[i].format == textures[0].format) {
                return false;
            }
            i += 1;
        }
        true
    }

    /// The shapes of `textures`, in order.
    fn shapes_of(textures: &Vec<Texture>) -> (r: Vec<TextureShapeNode>)
        ensures
            r@.len() == textures@.len(),
            forall|i: int| 0 <= i < textures@.len() ==> (#[trigger] r@[i])@ == textures@[i].surfaces@,
    {
        let mut out: Vec<TextureShapeNode> = Vec::new();
        let mut i: usize = 0;
        while i < textures.len()
            invariant
                i <= textures.len(),
                out@.len() == i,
                forall|j: int| 0 <= j < i ==> (#[trigger] out@[j])@ == textures@[j].surfaces@,
            decreases textures.len() - i,
        {
            out.push(textures[i].surfaces.clone());
            i += 1;
        }
        out
    }

    /// Makes a mipmap of `textures`: fails with `NonUniform("format")` where
    /// their formats differ, and otherwise as [`TextureShapeNode::try_from_mips`].
    pub fn try_from_mips(textures: Vec<Texture>) -> (r: Result<Texture, ShapeError>)
        requires
            forall|i: int| 0 <= i < textures@.len() ==> (#[trigger] textures@[i]).wf(),
        ensures
            textures@.len() > 0 && !(forall|i: int| 0 <= i < textures@.len() ==> (#[trigger] textures@[i]).format == textures@[0].format) ==> r == Err::<Texture, ShapeError>(ShapeError::NonUniform("format")),
            (textures@.len() == 0 || forall|i: int| 0 <= i < textures@.len() ==> (#[trigger] textures@[i]).format == textures@[0].format) ==> match ShapeView::mipmap_error(Seq::new(textures@.len(), |i: int| textures@[i].surfaces@)) {
                Some(e) => r == Err::<Texture, ShapeError>(e),
                None => r matches Ok(t) && t.format == textures@[0].format && t.surfaces@ == ShapeView::MipMap(Seq::new(textures@.len(), |i: int| textures@[i].surfaces@)) && t.surfaces@.wf(),
            },
    {
        if textures.len() > 0 && !Self::same_format(&textures) {
            return Err(ShapeError::NonUniform("format"));
        }
        let nodes = Self::shapes_of(&textures);
        assert(node_views(nodes@) =~= Seq::new(textures@.len(), |i: int| textures@[i].surfaces@));
        match TextureShapeNode::try_from_mips(nodes) {
            Ok(surfaces) => Ok(Texture { format: textures[0].format, surfaces }),
            Err(e) => Err(e),
        }
    }

    /// Makes an array of `textures`: fails with `NonUniform("format")` where
    /// their formats differ, and otherwise as [`TextureShapeNode::try_from_layers`].
    pub fn try_from_layers(textures: Vec<Texture>) -> (r: Result<Texture, ShapeError>)
        requires
            forall|i: int| 0 <= i < textures@.len() ==> (#[trigger] textures@[i]).wf(),
        ensures
            textures@.len() > 0 && !(forall|i: int| 0 <= i < textures@.len() ==> (#[trigger] textures@[i]).format == textures@[0].format) ==> r == Err::<Texture, ShapeError>(ShapeError::NonUniform("format")),
            (textures@.len() == 0 || forall|i: int| 0 <= i < textures@.len() ==> (#[trigger] textures@[i]).format == textures@[0].format) ==> match ShapeView::array_error(Seq::new(textures@.len(), |i: int| textures@[i].surfaces@)) {
                Some(e) => r == Err::<Texture, ShapeError>(e),
                None => r matches Ok(t) && t.format == textures@[0].format && t.surfaces@ == ShapeView::Array(Seq::new(textures@.len(), |i: int| textures@[i].surfaces@)) && t.surfaces@.wf(),
            },
    {
        if textures.len() > 0 && !Self::same_format(&textures) {
            return Err(ShapeError::NonUniform("format"));
        }
        let nodes = Self::shapes_of(&textures);
        assert(node_views(nodes@) =~= Seq::new(textures@.len(), |i: int| textures@[i].surfaces@));
        match TextureShapeNode::try_from_layers(nodes) {
            Ok(surfaces) => Ok(Texture { format: textures[0].format, surfaces }),
            Err(e) => Err(e),
        }
    }

    /// Makes a cubemap of `(face, texture)` entries: fails with
    /// `NonUniform("format")` where their formats differ, and otherwise as
    /// [`TextureShapeNode::try_from_faces`].
    pub fn try_from_faces(textures: Vec<(CubeFace, Texture)>) -> (r: Result<Texture, ShapeError>)
        requires
            forall|i: int| 0 <= i < textures@.len() ==> (#[trigger] textures@[i]).1.wf(),
        ensures
            textures@.len() > 0 && !(forall|i: int| 0 <= i < textures@.len() ==> (#[trigger] textures@[i]).1.format == textures@[0].1.format) ==> r == Err::<Texture, ShapeError>(ShapeError::NonUniform("format")),
            (textures@.len() == 0 || forall|i: int| 0 <= i < textures@.len() ==> (#[trigger] textures@[i]).1.format == textures@[0].1.format) ==> match ShapeView::cubemap_error(Seq::new(textures@.len(), |i: int| (textures@[i].0, textures@[i].1.surfaces@))) {
                Some(e) => r == Err::<Texture, ShapeError>(e),
                None => r matches Ok(t) && t.format == textures@[0].1.format && t.surfaces@ == ShapeView::CubeMap(Seq::new(textures@.len(), |i: int| (textures@[i].0, textures@[i].1.surfaces@))) && t.surfaces@.wf(),
            },
    {
        let mut entries: Vec<(CubeFace, TextureShapeNode)> = Vec::new();
        let mut i: usize = 0;
        while i < textures.len()
            invariant
                i <= textures.len(),
                entries@.len() == i,
                forall|j: int| 0 <= j < i ==> (#[trigger] entries@[j]).0 == textures@[j].0 && entries@[j].1@ == textures@[j].1.surfaces@,
                forall|j: int| 0 <= j < i ==> (#[trigger] textures@[j]).1.format == textures@[0].1.format,
            decreases textures.len() - i,
        {
            if !(textures[i].1.format == textures[0].1.format) {
                return Err(ShapeError::NonUniform("format"));
            }
            entries.push((textures[i].0, textures[i].1.surfaces.clone()));
            i += 1;
        }
        assert(entry_views(entries@) =~= Seq::new(textures@.len(), |i: int| (textures@[i].0, textures@[i].1.surfaces@)));
        match TextureShapeNode::try_from_faces(entries) {
            Ok(surfaces) => Ok(Texture { format: textures[0].1.format, surfaces }),
            Err(e) => Err(e),
        }
    }
}

/// The faces of an optional face list, as a mathematical value.
pub open spec fn opt_faces(o: Option<Vec<CubeFace>>) -> Option<Seq<CubeFace>> {
    match o {
        Some(v) => Some(v@),
        None => None,
    }
}

/// How many mip levels a reader makes for `mips` requested levels: all of them,
/// but no more than the mip chain of `dims` has.
pub open spec fn mip_levels(dims: Dimensions, mips: Option<nat>) -> nat {
    match mips {
        Some(n) => if n <= dims.mip_count() {
            n
        } else {
            dims.mip_count()
        },
        None => 1,
    }
}

/// The bytes that the first `m` levels of the mip chain of `dims` take.
pub open spec fn chain_bytes(format: Format, dims: Dimensions, m: nat) -> nat
    decreases m,
{
    if m == 0 {
        0
    } else {
        chain_bytes(format, dims, (m - 1) as nat) + format.spec_size_for(dims.mip_at((m - 1) as nat))
    }
}

/// The bytes that one mipmap (or one surface, without mips) takes.
pub open spec fn mip_span(format: Format, dims: Dimensions, mips: Option<nat>) -> nat {
    match mips {
        None => format.spec_size_for(dims),
        Some(_) => chain_bytes(format, dims, mip_levels(dims, mips)),
    }
}

/// The bytes that one cubemap (or one mipmap, without faces) takes.
pub open spec fn face_span(
    format: Format,
    dims: Dimensions,
    faces: Option<Seq<CubeFace>>,
    mips: Option<nat>,
) -> nat {
    match faces {
        None => mip_span(format, dims, mips),
        Some(fs) => fs.len() * mip_span(format, dims, mips),
    }
}

/// The bytes that a whole texture of this shape takes.
pub open spec fn layer_span(
    format: Format,
    dims: Dimensions,
    layers: Option<nat>,
    faces: Option<Seq<CubeFace>>,
    mips: Option<nat>,
) -> nat {
    match layers {
        None => face_span(format, dims, faces, mips),
        Some(n) => n * face_span(format, dims, faces, mips),
    }
}

/// A surface of `dims` holding the bytes of `data` from `start` on.
pub open spec fn surface_at(format: Format, dims: Dimensions, data: Seq<u8>, start: int) -> ShapeView {
    ShapeView::Surface(
        SurfaceView {
            dimensions: dims,
            bytes: data.subrange(start, start + format.spec_size_for(dims)),
        },
    )
}

/// The mipmap (or surface, without mips) read from `data` at `start`: its
/// levels follow the mip chain of `dims` and lie one after another.
pub open spec fn mip_tree(
    format: Format,
    dims: Dimensions,
    mips: Option<nat>,
    data: Seq<u8>,
    start: int,
) -> ShapeView {
    match mips {
        None => surface_at(format, dims, data, start),
        Some(_) => ShapeView::MipMap(
            Seq::new(
                mip_levels(dims, mips),
                |k: int|
                    surface_at(
                        format,
                        dims.mip_at(k as nat),
                        data,
                        start + chain_bytes(format, dims, k as nat),
                    ),
            ),
        ),
    }
}

/// The cubemap (or mipmap, without faces) read from `data` at `start`: one
/// mipmap for each face, in the order the faces are given.
pub open spec fn face_tree(
    format: Format,
    dims: Dimensions,
    faces: Option<Seq<CubeFace>>,
    mips: Option<nat>,
    data: Seq<u8>,
    start: int,
) -> ShapeView {
    match faces {
        None => mip_tree(format, dims, mips, data, start),
        Some(fs) => ShapeView::CubeMap(
            Seq::new(
                fs.len(),
                |i: int|
                    (fs[i], mip_tree(format, dims, mips, data, start + i * mip_span(format, dims, mips))),
            ),
        ),
    }
}

/// The array (or cubemap, without layers) read from `data` at `start`: one
/// cubemap for each layer.
pub open spec fn layer_tree(
    format: Format,
    dims: Dimensions,
    layers: Option<nat>,
    faces: Option<Seq<CubeFace>>,
    mips: Option<nat>,
    data: Seq<u8>,
    start: int,
) -> ShapeView {
    match layers {
        None => face_tree(format, dims, faces, mips, data, start),
        Some(n) => ShapeView::Array(
            Seq::new(
                n,
                |l: int|
                    face_tree(
                        format,
                        dims,
                        faces,
                        mips,
                        data,
                        start + l * face_span(format, dims, faces, mips),
                    ),
            ),
        ),
    }
}

/// The error of reading past the end of the data.
pub open spec fn data_ends_early() -> TextureError {
    TextureError::IO("surface data ends early")
}

/// The shape error that reading this shape ends in before it reads any data,
/// if any, outermost first: no layers, no faces, no mip levels.
pub open spec fn early_shape_error(
    layers: Option<nat>,
    faces: Option<Seq<CubeFace>>,
    mips: Option<nat>,
) -> Option<ShapeError> {
    if layers == Some(0nat) {
        Some(ShapeError::Empty("array"))
    } else if faces matches Some(fs) && fs.len() == 0 {
        Some(ShapeError::Empty("cube"))
    } else if mips == Some(0nat) {
        Some(ShapeError::Empty("mipmap"))
    } else {
        None
    }
}

/// A face is listed twice.
pub open spec fn repeats_a_face(faces: Option<Seq<CubeFace>>) -> bool {
    faces matches Some(fs) && !fs.no_duplicates()
}

/// The shape error that reading this shape ends in, if any: one of
/// [`early_shape_error`], or else a repeated face.
pub open spec fn read_shape_error(
    layers: Option<nat>,
    faces: Option<Seq<CubeFace>>,
    mips: Option<nat>,
) -> Option<ShapeError> {
    match early_shape_error(layers, faces, mips) {
        Some(e) => Some(e),
        None => if repeats_a_face(faces) {
            Some(ShapeError::DuplicateFaces)
        } else {
            None
        },
    }
}

/// How reading this shape from `len` bytes at `start` fails, if it does, in
/// the order reading meets the failures: a shape error found before any
/// data is read; the data ending within the first cubemap; a repeated face,
/// found once the first cubemap is read; the data ending within a later one.
pub open spec fn read_error(
    format: Format,
    dims: Dimensions,
    layers: Option<nat>,
    faces: Option<Seq<CubeFace>>,
    mips: Option<nat>,
    len: nat,
    start: nat,
) -> Option<TextureError> {
    match early_shape_error(layers, faces, mips) {
        Some(e) => Some(TextureError::Shape(e)),
        None => if start + face_span(format, dims, faces, mips) > len {
            Some(data_ends_early())
        } else if repeats_a_face(faces) {
            Some(TextureError::Shape(ShapeError::DuplicateFaces))
        } else if start + layer_span(format, dims, layers, faces, mips) > len {
            Some(data_ends_early())
        } else {
            None
        },
    }
}

/// Reads surfaces of one format from a byte buffer, front to back.
pub struct SurfaceReader<'a> {
    pub format: Format,
    pub bytes: &'a [u8],
    pub position: usize,
}

impl<'a> SurfaceReader<'a> {
    pub open spec fn remaining(self) -> nat {
        (self.bytes@.len() - self.position) as nat
    }

    /// A reader of `format` at the start of `bytes`.
    pub fn new(format: Format, bytes: &'a [u8]) -> (r: SurfaceReader<'a>)
        ensures
            r.format == format,
            r.bytes@ == bytes@,
            r.position == 0,
    {
        SurfaceReader { format, bytes, position: 0 }
    }

    /// Reads one surface of `dims`: the next `size_for(dims)` bytes. Fails with
    /// `IO` where fewer bytes are left.
    pub fn read_surface(&mut self, dims: Dimensions) -> (r: Result<TextureShapeNode, TextureError>)
        requires
            old(self).position <= old(self).bytes@.len(),
            dims.wf(),
        ensures
            final(self).format == old(self).format,
            final(self).bytes@ == old(self).bytes@,
            final(self).position <= final(self).bytes@.len(),
            r is Ok <==> old(self).position + old(self).format.spec_size_for(dims) <= old(self).bytes@.len(),
            r matches Ok(t) ==> t@ == surface_at(old(self).format, dims, old(self).bytes@, old(self).position as int)
                && t@.wf() && final(self).position == old(self).position + old(self).format.spec_size_for(dims),
            r matches Err(e) ==> e == data_ends_early(),
    {
        let len = self.bytes.len();
        let size = match self.format.checked_size_for(dims) {
            Some(n) => n,
            None => return Err(TextureError::IO("surface data ends early")),
        };
        if size > len - self.position {
            return Err(TextureError::IO("surface data ends early"));
        }
        let start = self.position;
        let mut buffer: Vec<u8> = Vec::new();
        let mut i: usize = 0;
        while i < size
            invariant
                i <= size,
                len == self.bytes@.len(),
                start + size <= self.bytes@.len(),
                buffer@ == self.bytes@.subrange(start as int, start + i),
            decreases size - i,
        {
            buffer.push(self.bytes[start + i]);
            i += 1;
            assert(buffer@ =~= self.bytes@.subrange(start as int, start + i));
        }
        self.position = start + size;
        Ok(TextureShapeNode::from_surface(Surface::new(dims, buffer)))
    }

    /// Reads the surfaces of the first `n` levels of the mip chain of `dims`
    /// (or of all of them, where the chain is shorter).
    #[verifier::rlimit(30)]
    fn read_levels(&mut self, dims: Dimensions, n: usize) -> (r: Result<Vec<TextureShapeNode>, TextureError>)
        requires
            old(self).position <= old(self).bytes@.len(),
            dims.wf(),
            n >= 1,
        ensures
            final(self).format == old(self).format,
            final(self).bytes@ == old(self).bytes@,
            final(self).position <= final(self).bytes@.len(),
            r is Ok <==> old(self).position + mip_span(old(self).format, dims, Some(n as nat))
                <= old(self).bytes@.len(),
            r matches Ok(levels) ==> node_views(levels@) =~= mip_tree(
                old(self).format,
                dims,
                Some(n as nat),
                old(self).bytes@,
                old(self).position as int,
            )->MipMap_0 && final(self).position == old(self).position + mip_span(
                old(self).format,
                dims,
                Some(n as nat),
            ),
            r matches Err(e) ==> e == data_ends_early(),
    {
        let ghost format = self.format;
        let ghost start = self.position as int;
        let ghost data = self.bytes@;
        let ghost m = mip_levels(dims, Some(n as nat));
        let mut chain = dims.mips();
        let mut levels: Vec<TextureShapeNode> = Vec::new();
        let mut k: usize = 0;
        while k < n
            invariant
                format == old(self).format,
                data == old(self).bytes@,
                start == old(self).position,
                self.format == format,
                self.bytes@ == data,
                self.position <= data.len(),
                self.position == start + chain_bytes(format, dims, k as nat),
                k <= n,
                k <= m,
                m == mip_levels(dims, Some(n as nat)),
                dims.wf(),
                chain.wf(),
                chain.remaining() == dims.mip_chain().skip(k as int),
                levels@.len() == k,
                forall|j: int| 0 <= j < k ==> (#[trigger] levels@[j])@ == surface_at(format, dims.mip_at(j as nat), data, start + chain_bytes(format, dims, j as nat)),
            ensures
                k == m,
                self.format == format,
                self.bytes@ == data,
                self.position <= data.len(),
                self.position == start + chain_bytes(format, dims, k as nat),
                levels@.len() == k,
                forall|j: int| 0 <= j < k ==> (#[trigger] levels@[j])@ == surface_at(format, dims.mip_at(j as nat), data, start + chain_bytes(format, dims, j as nat)),
            decreases n - k,
        {
            let d = match chain.next() {
                Some(d) => d,
                None => {
                    assert(k as nat == dims.mip_count());
                    break;
                },
            };
            assert(d == dims.mip_at(k as nat));
            let res = self.read_surface(d);
            match res {
                Ok(t) => levels.push(t),
                Err(e) => {
                    proof {
                        lemma_chain_bytes_grow(format, dims, (k + 1) as nat, m);
                    }
                    return Err(e);
                },
            }
            k += 1;
            assert(chain.remaining() =~= dims.mip_chain().skip(k as int));
        }
        assert(k == m);
        assert(node_views(levels@) =~= mip_tree(format, dims, Some(n as nat), data, start)->MipMap_0);
        Ok(levels)
    }

    /// Reads a cubemap with one mipmap (see [`SurfaceReader::read_mips`]) for
    /// each of `faces`, in the order given, then builds it; or a single mipmap
    /// where `faces` is `None`. Fails as [`read_error`] says.
    pub fn read_faces(
        &mut self,
        dims: Dimensions,
        faces: &Option<Vec<CubeFace>>,
        mips: Option<usize>,
    ) -> (r: Result<TextureShapeNode, TextureError>)
        requires
            old(self).position <= old(self).bytes@.len(),
            dims.wf(),
        ensures
            final(self).format == old(self).format,
            final(self).bytes@ == old(self).bytes@,
            final(self).position <= final(self).bytes@.len(),
            match read_error(
                old(self).format,
                dims,
                None,
                opt_faces(*faces),
                opt_nat(mips),
                old(self).bytes@.len(),
                old(self).position as nat,
            ) {
                Some(e) => r == Err::<TextureShapeNode, TextureError>(e),
                None => r matches Ok(t) && t@ == face_tree(
                    old(self).format,
                    dims,
                    opt_faces(*faces),
                    opt_nat(mips),
                    old(self).bytes@,
                    old(self).position as int,
                ) && t@.wf() && final(self).position == old(self).position + face_span(
                    old(self).format,
                    dims,
                    opt_faces(*faces),
                    opt_nat(mips),
                ),
            },
    {
        let fs = match faces {
            None => return self.read_mips(dims, mips),
            Some(fs) => fs,
        };
        if fs.len() == 0 {
            return Err(TextureError::Shape(ShapeError::Empty("cube")));
        }
        match mips {
            Some(0) => return Err(TextureError::Shape(ShapeError::Empty("mipmap"))),
            _ => {},
        }
        let ghost format = self.format;
        let ghost start = self.position as int;
        let ghost data = self.bytes@;
        let ghost m = mip_span(format, dims, opt_nat(mips));
        let ghost target = face_tree(format, dims, opt_faces(*faces), opt_nat(mips), data, start);
        let mut entries: Vec<(CubeFace, TextureShapeNode)> = Vec::new();
        let mut i: usize = 0;
        while i < fs.len()
            invariant
                format == old(self).format,
                data == old(self).bytes@,
                start == old(self).position,
                self.format == format,
                self.bytes@ == data,
                self.position <= data.len(),
                self.position == start + i * m,
                m == mip_span(format, dims, opt_nat(mips)),
                opt_nat(mips) != Some(0nat),
                opt_faces(*faces) == Some(fs@),
                fs@.len() > 0,
                face_span(format, dims, opt_faces(*faces), opt_nat(mips)) == fs@.len() * m,
                dims.wf(),
                i <= fs@.len(),
                entries@.len() == i,
                forall|j: int| 0 <= j < i ==> (#[trigger] entries@[j]).0 == fs@[j] && entries@[j].1@ == mip_tree(format, dims, opt_nat(mips), data, start + j * m),
                forall|j: int| 0 <= j < i ==> (#[trigger] entries@[j]).1@.wf(),
            decreases fs.len() - i,
        {
            proof {
                lemma_mip_tree(format, dims, opt_nat(mips), data, start + i * m);
            }
            match self.read_mips(dims, mips) {
                Ok(t) => entries.push((fs[i], t)),
                Err(e) => {
                    assert((i + 1) * m <= fs@.len() * m) by (nonlinear_arith)
                        requires
                            i + 1 <= fs@.len(),
                    ;
                    assert((i + 1) * m == i * m + m) by (nonlinear_arith);
                    return Err(e);
                },
            }
            assert((i + 1) * m == i * m + m) by (nonlinear_arith);
            i += 1;
        }
        assert(entry_views(entries@) =~= target->CubeMap_0);
        assert(entry_faces(target->CubeMap_0) =~= fs@);
        proof {
            if !repeats_a_face(opt_faces(*faces)) {
                lemma_face_tree(format, dims, opt_faces(*faces), opt_nat(mips), data, start);
            }
        }
        match TextureShapeNode::try_from_faces(entries) {
            Ok(t) => Ok(t),
            Err(e) => Err(TextureError::Shape(e)),
        }
    }

    /// Reads an array with one cubemap (see [`SurfaceReader::read_faces`]) for
    /// each of `layers` layers, then builds it; or a single cubemap where
    /// `layers` is `None`. Fails as [`read_error`] says.
    pub fn read_layers(
        &mut self,
        dims: Dimensions,
        layers: Option<usize>,
        faces: &Option<Vec<CubeFace>>,
        mips: Option<usize>,
    ) -> (r: Result<TextureShapeNode, TextureError>)
        requires
            old(self).position <= old(self).bytes@.len(),
            dims.wf(),
        ensures
            final(self).format == old(self).format,
            final(self).bytes@ == old(self).bytes@,
            final(self).position <= final(self).bytes@.len(),
            match read_error(
                old(self).format,
                dims,
                opt_nat(layers),
                opt_faces(*faces),
                opt_nat(mips),
                old(self).bytes@.len(),
                old(self).position as nat,
            ) {
                Some(e) => r == Err::<TextureShapeNode, TextureError>(e),
                None => r matches Ok(t) && t@ == layer_tree(
                    old(self).format,
                    dims,
                    opt_nat(layers),
                    opt_faces(*faces),
                    opt_nat(mips),
                    old(self).bytes@,
                    old(self).position as int,
                ) && t@.wf() && final(self).position == old(self).position + layer_span(
                    old(self).format,
                    dims,
                    opt_nat(layers),
                    opt_faces(*faces),
                    opt_nat(mips),
                ),
            },
    {
        let n = match layers {
            None => return self.read_faces(dims, faces, mips),
            Some(n) => n,
        };
        if n == 0 {
            return Err(TextureError::Shape(ShapeError::Empty("array")));
        }
        let ghost format = self.format;
        let ghost start = self.position as int;
        let ghost data = self.bytes@;
        let ghost fv = opt_faces(*faces);
        let ghost m = face_span(format, dims, fv, opt_nat(mips));
        let ghost target = layer_tree(format, dims, opt_nat(layers), fv, opt_nat(mips), data, start);
        let mut children: Vec<TextureShapeNode> = Vec::new();
        let mut i: usize = 0;
        while i < n
            invariant
                format == old(self).format,
                data == old(self).bytes@,
                start == old(self).position,
                self.format == format,
                self.bytes@ == data,
                self.position <= data.len(),
                self.position == start + i * m,
                fv == opt_faces(*faces),
                opt_nat(layers) == Some(n as nat),
                n > 0,
                layer_span(format, dims, opt_nat(layers), fv, opt_nat(mips)) == n * m,
                m == face_span(format, dims, fv, opt_nat(mips)),
                i > 0 ==> read_shape_error(None, fv, opt_nat(mips)) is None && start + m <= data.len(),
                dims.wf(),
                i <= n,
                children@.len() == i,
                forall|j: int| 0 <= j < i ==> (#[trigger] children@[j])@ == face_tree(format, dims, fv, opt_nat(mips), data, start + j * m),
                forall|j: int| 0 <= j < i ==> (#[trigger] children@[j])@.wf(),
            decreases n - i,
        {
            match self.read_faces(dims, faces, mips) {
                Ok(t) => children.push(t),
                Err(e) => {
                    assert((i + 1) * m <= n * m) by (nonlinear_arith)
                        requires
                            i + 1 <= n,
                    ;
                    assert((i + 1) * m == i * m + m) by (nonlinear_arith);
                    assert(m <= (i + 1) * m) by (nonlinear_arith)
                        requires
                            i + 1 >= 1,
                    ;
                    return Err(e);
                },
            }
            assert((i + 1) * m == i * m + m) by (nonlinear_arith);
            assert(m <= (i + 1) * m) by (nonlinear_arith)
                requires
                    i + 1 >= 1,
            ;
            i += 1;
        }
        proof {
            lemma_layer_tree(format, dims, opt_nat(layers), fv, opt_nat(mips), data, start);
        }
        assert(node_views(children@) =~= target->Array_0);
        match TextureShapeNode::try_from_layers(children) {
            Ok(t) => Ok(t),
            Err(e) => Err(TextureError::Shape(e)),
        }
    }

    /// Reads a mipmap of `mips` levels whose dimensions follow the mip chain of
    /// `dims` (no more levels than the chain has), or a single surface where
    /// `mips` is `None`. Fails as [`read_error`] says: with
    /// `Shape(Empty("mipmap"))` for zero levels, or where the data ends early.
    pub fn read_mips(&mut self, dims: Dimensions, mips: Option<usize>) -> (r: Result<
        TextureShapeNode,
        TextureError,
    >)
        requires
            old(self).position <= old(self).bytes@.len(),
            dims.wf(),
        ensures
            final(self).format == old(self).format,
            final(self).bytes@ == old(self).bytes@,
            final(self).position <= final(self).bytes@.len(),
            match read_error(
                old(self).format,
                dims,
                None,
                None,
                opt_nat(mips),
                old(self).bytes@.len(),
                old(self).position as nat,
            ) {
                Some(e) => r == Err::<TextureShapeNode, TextureError>(e),
                None => r matches Ok(t) && t@ == mip_tree(
                    old(self).format,
                    dims,
                    opt_nat(mips),
                    old(self).bytes@,
                    old(self).position as int,
                ) && t@.wf() && final(self).position == old(self).position + mip_span(
                    old(self).format,
                    dims,
                    opt_nat(mips),
                ),
            },
    {
        let n = match mips {
            None => return self.read_surface(dims),
            Some(n) => n,
        };
        if n == 0 {
            return Err(TextureError::Shape(ShapeError::Empty("mipmap")));
        }
        let ghost format = self.format;
        let ghost start = self.position as int;
        let ghost data = self.bytes@;
        proof {
            lemma_mip_tree(format, dims, opt_nat(mips), data, start);
        }
        let levels = match self.read_levels(dims, n) {
            Ok(levels) => levels,
            Err(e) => return Err(e),
        };
        assert forall|i: int| 0 <= i < levels@.len() implies (#[trigger] levels@[i])@.wf() by {
            assert(node_views(levels@)[i] == levels@[i]@);
        }
        assert(node_views(levels@) =~= mip_tree(format, dims, Some(n as nat), data, start)->MipMap_0);
        match TextureShapeNode::try_from_mips(levels) {
            Ok(t) => Ok(t),
            Err(e) => Err(TextureError::Shape(e)),
        }
    }
}

/// Every surface of a mipmap read within the data has the size its format needs.
pub proof fn lemma_mip_tree_sizes(format: Format, dims: Dimensions, mips: Option<nat>, data: Seq<u8>, start: int)
    requires
        0 <= start,
        start + mip_span(format, dims, mips) <= data.len(),
    ensures
        sizes_match(format, mip_tree(format, dims, mips, data, start)),
{
    if mips is Some {
        let m = mip_levels(dims, mips);
        let v = mip_tree(format, dims, mips, data, start)->MipMap_0;
        assert forall|k: int| 0 <= k < v.len() implies sizes_match(format, #[trigger] v[k]) by {
            lemma_chain_bytes_grow(format, dims, (k + 1) as nat, m);
        }
    }
}

/// Every surface of a cubemap read within the data has the size its format needs.
pub proof fn lemma_face_tree_sizes(
    format: Format,
    dims: Dimensions,
    faces: Option<Seq<CubeFace>>,
    mips: Option<nat>,
    data: Seq<u8>,
    start: int,
)
    requires
        0 <= start,
        start + face_span(format, dims, faces, mips) <= data.len(),
    ensures
        sizes_match(format, face_tree(format, dims, faces, mips, data, start)),
{
    let m = mip_span(format, dims, mips);
    if faces is Some {
        let n = faces->Some_0.len();
        let v = face_tree(format, dims, faces, mips, data, start)->CubeMap_0;
        assert forall|i: int| 0 <= i < v.len() implies sizes_match(format, (#[trigger] v[i]).1) by {
            assert((i + 1) * m <= n * m) by (nonlinear_arith)
                requires
                    i + 1 <= n,
            ;
            assert((i + 1) * m == i * m + m) by (nonlinear_arith);
            assert(0 <= i * m) by (nonlinear_arith)
                requires
                    0 <= i,
            ;
            lemma_mip_tree_sizes(format, dims, mips, data, start + i * m);
        }
    } else {
        lemma_mip_tree_sizes(format, dims, mips, data, start);
    }
}

/// Every surface of a texture read within the data has the size its format needs.
pub proof fn lemma_layer_tree_sizes(
    format: Format,
    dims: Dimensions,
    layers: Option<nat>,
    faces: Option<Seq<CubeFace>>,
    mips: Option<nat>,
    data: Seq<u8>,
    start: int,
)
    requires
        0 <= start,
        start + layer_span(format, dims, layers, faces, mips) <= data.len(),
    ensures
        sizes_match(format, layer_tree(format, dims, layers, faces, mips, data, start)),
{
    let m = face_span(format, dims, faces, mips);
    if layers is Some {
        let n = layers->Some_0;
        let v = layer_tree(format, dims, layers, faces, mips, data, start)->Array_0;
        assert forall|i: int| 0 <= i < v.len() implies sizes_match(format, #[trigger] v[i]) by {
            assert((i + 1) * m <= n * m) by (nonlinear_arith)
                requires
                    i + 1 <= n,
            ;
            assert((i + 1) * m == i * m + m) by (nonlinear_arith);
            assert(0 <= i * m) by (nonlinear_arith)
                requires
                    0 <= i,
            ;
            lemma_face_tree_sizes(format, dims, faces, mips, data, start + i * m);
        }
    } else {
        lemma_face_tree_sizes(format, dims, faces, mips, data, start);
    }
}

/// Reading more levels takes more bytes.
pub proof fn lemma_chain_bytes_grow(format: Format, dims: Dimensions, a: nat, b: nat)
    requires
        a <= b,
    ensures
        chain_bytes(format, dims, a) <= chain_bytes(format, dims, b),
    decreases b - a,
{
    if a < b {
        lemma_chain_bytes_grow(format, dims, a, (b - 1) as nat);
    }
}

/// The facts about a mipmap as read that building it on needs.
pub proof fn lemma_mip_tree(format: Format, dims: Dimensions, mips: Option<nat>, data: Seq<u8>, start: int)
    requires
        dims.wf(),
        mips != Some(0nat),
    ensures
        mip_tree(format, dims, mips, data, start).wf(),
        mip_tree(format, dims, mips, data, start).dims() == dims,
        mip_tree(format, dims, mips, data, start).mips() == (match mips {
            Some(_) => Some(mip_levels(dims, mips)),
            None => None::<nat>,
        }),
        mip_tree(format, dims, mips, data, start).layers() is None,
        mip_tree(format, dims, mips, data, start).faces() is None,
        mips is Some ==> ShapeView::mipmap_error(mip_tree(format, dims, mips, data, start)->MipMap_0) is None,
{
    if mips is Some {
        let s = mip_tree(format, dims, mips, data, start)->MipMap_0;
        dims.lemma_mip_chain_elements();
        assert(s[0].dims() == dims);
        assert forall|k: int| 0 <= k < s.len() implies (#[trigger] s[k]).dims() == s[0].dims().mip_at(k as nat) && s[k].wf() by {
            assert(dims.mip_chain()[k] == dims.mip_at(k as nat));
        }
        assert(ShapeView::mip_chain_ok(s));
        assert(ShapeView::uniform(ShapeAspect::Layers, s));
        assert(ShapeView::uniform(ShapeAspect::Faces, s));
        assert(!ShapeView::nested(ShapeAspect::Mips, s));
    }
}

/// The facts about a cubemap as read that building it on needs.
pub proof fn lemma_face_tree(
    format: Format,
    dims: Dimensions,
    faces: Option<Seq<CubeFace>>,
    mips: Option<nat>,
    data: Seq<u8>,
    start: int,
)
    requires
        dims.wf(),
        read_shape_error(None, faces, mips) is None,
    ensures
        face_tree(format, dims, faces, mips, data, start).wf(),
        face_tree(format, dims, faces, mips, data, start).dims() == dims,
        face_tree(format, dims, faces, mips, data, start).mips() == mip_tree(format, dims, mips, data, start).mips(),
        face_tree(format, dims, faces, mips, data, start).layers() is None,
        face_tree(format, dims, faces, mips, data, start).faces() == faces,
        faces is Some ==> ShapeView::cubemap_error(face_tree(format, dims, faces, mips, data, start)->CubeMap_0) is None,
{
    lemma_mip_tree(format, dims, mips, data, start);
    if faces is Some {
        let fs = faces->Some_0;
        let v = face_tree(format, dims, faces, mips, data, start)->CubeMap_0;
        let m = mip_span(format, dims, mips);
        assert forall|i: int| 0 <= i < v.len() implies ShapeView::agree(ShapeAspect::Dimensions, #[trigger] entry_trees(v)[i], entry_trees(v)[0])
            && ShapeView::agree(ShapeAspect::Mips, entry_trees(v)[i], entry_trees(v)[0])
            && ShapeView::agree(ShapeAspect::Layers, entry_trees(v)[i], entry_trees(v)[0])
            && !ShapeView::has(ShapeAspect::Faces, entry_trees(v)[i])
            && v[i].1.wf() by {
            lemma_mip_tree(format, dims, mips, data, start + i * m);
            lemma_mip_tree(format, dims, mips, data, start + 0 * m);
        }
        assert(ShapeView::uniform(ShapeAspect::Dimensions, entry_trees(v)));
        assert(ShapeView::uniform(ShapeAspect::Mips, entry_trees(v)));
        assert(ShapeView::uniform(ShapeAspect::Layers, entry_trees(v)));
        assert(!ShapeView::nested(ShapeAspect::Faces, entry_trees(v)));
        assert(entry_faces(v) =~= fs);
        assert forall|i: int| 0 <= i < v.len() implies (#[trigger] v[i]).1.wf() by {
            assert(entry_trees(v)[i] == v[i].1);
        }
        assert(ShapeView::cubemap_ok(v));
        lemma_mip_tree(format, dims, mips, data, start + 0 * m);
        assert(v[0].1 == mip_tree(format, dims, mips, data, start));
    }
}

/// The facts about a whole texture as read that building it needs.
pub proof fn lemma_layer_tree(
    format: Format,
    dims: Dimensions,
    layers: Option<nat>,
    faces: Option<Seq<CubeFace>>,
    mips: Option<nat>,
    data: Seq<u8>,
    start: int,
)
    requires
        dims.wf(),
        read_shape_error(layers, faces, mips) is None,
    ensures
        layer_tree(format, dims, layers, faces, mips, data, start).wf(),
        layers is Some ==> ShapeView::array_error(layer_tree(format, dims, layers, faces, mips, data, start)->Array_0) is None,
        layer_tree(format, dims, layers, faces, mips, data, start).dims() == dims,
        layer_tree(format, dims, layers, faces, mips, data, start).mips() == mip_tree(format, dims, mips, data, start).mips(),
        layer_tree(format, dims, layers, faces, mips, data, start).layers() == layers,
        layer_tree(format, dims, layers, faces, mips, data, start).faces() == faces,
{
    lemma_face_tree(format, dims, faces, mips, data, start);
    if layers is Some {
        let v = layer_tree(format, dims, layers, faces, mips, data, start)->Array_0;
        let m = face_span(format, dims, faces, mips);
        assert forall|i: int| 0 <= i < v.len() implies ShapeView::agree(ShapeAspect::Dimensions, #[trigger] v[i], v[0])
            && ShapeView::agree(ShapeAspect::Mips, v[i], v[0])
            && ShapeView::agree(ShapeAspect::Faces, v[i], v[0])
            && !ShapeView::has(ShapeAspect::Layers, v[i])
            && v[i].wf() by {
            lemma_face_tree(format, dims, faces, mips, data, start + i * m);
            lemma_face_tree(format, dims, faces, mips, data, start + 0 * m);
            lemma_mip_tree(format, dims, mips, data, start + i * m);
            lemma_mip_tree(format, dims, mips, data, start + 0 * m);
        }
        assert(ShapeView::uniform(ShapeAspect::Dimensions, v));
        assert(ShapeView::uniform(ShapeAspect::Mips, v));
        assert(ShapeView::uniform(ShapeAspect::Faces, v));
        assert(!ShapeView::nested(ShapeAspect::Layers, v));
    }
}

} // verus!
