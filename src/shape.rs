//! The shape of a texture: a tree of arrays, cubemaps and mipmaps over surfaces,
//! with the invariants that keep it uniform.

use vstd::prelude::*;

use crate::dimensions::Dimensions;
use crate::texture::{Surface, SurfaceView};

verus! {

broadcast use vstd::std_specs::vec::group_vec_axioms;

/// The face of a cubemap. The declaration order, +X, −X, +Y, −Y, +Z, −Z, is the
/// canonical order in which faces are stored.
#[derive(Debug, Clone, Copy, PartialEq, Eq, Structural, Hash)]
pub enum CubeFace {
    PositiveX,
    NegativeX,
    PositiveY,
    NegativeY,
    PositiveZ,
    NegativeZ,
}

/// The position of a face in the canonical order.
pub open spec fn face_index(f: CubeFace) -> nat {
    match f {
        CubeFace::PositiveX => 0,
        CubeFace::NegativeX => 1,
        CubeFace::PositiveY => 2,
        CubeFace::NegativeY => 3,
        CubeFace::PositiveZ => 4,
        CubeFace::NegativeZ => 5,
    }
}

/// All six faces in canonical order.
pub open spec fn canonical_faces() -> Seq<CubeFace> {
    seq![
        CubeFace::PositiveX,
        CubeFace::NegativeX,
        CubeFace::PositiveY,
        CubeFace::NegativeY,
        CubeFace::PositiveZ,
        CubeFace::NegativeZ,
    ]
}

/// Each face stands in the canonical order at its own index, once.
pub proof fn lemma_canonical_faces()
    ensures
        canonical_faces().len() == 6,
        forall|f: CubeFace|
            face_index(f) < 6 && #[trigger] canonical_faces()[face_index(f) as int] == f,
        forall|i: int| 0 <= i < 6 ==> face_index(#[trigger] canonical_faces()[i]) == i,
        canonical_faces().no_duplicates(),
{
}

/// The position of `face` in the canonical order, which is the order faces are stored in.
pub fn cubemap_order(face: &CubeFace) -> (r: usize)
    ensures
        r == face_index(*face),
{
    match face {
        CubeFace::PositiveX => 0,
        CubeFace::NegativeX => 1,
        CubeFace::PositiveY => 2,
        CubeFace::NegativeY => 3,
        CubeFace::PositiveZ => 4,
        CubeFace::NegativeZ => 5,
    }
}

/// All six faces, in canonical order.
pub fn all_faces() -> (r: Vec<CubeFace>)
    ensures
        r@ == canonical_faces(),
{
    let r = vec![
        CubeFace::PositiveX,
        CubeFace::NegativeX,
        CubeFace::PositiveY,
        CubeFace::NegativeY,
        CubeFace::PositiveZ,
        CubeFace::NegativeZ,
    ];
    assert(r@ =~= canonical_faces());
    r
}

/// The faces of `fs` among the first `k` in canonical order.
pub open spec fn canonical_subset(fs: Seq<CubeFace>, k: nat) -> Seq<CubeFace>
    decreases k,
{
    if k == 0 {
        Seq::empty()
    } else {
        let f = canonical_faces()[k - 1];
        if fs.contains(f) {
            canonical_subset(fs, (k - 1) as nat).push(f)
        } else {
            canonical_subset(fs, (k - 1) as nat)
        }
    }
}

/// The faces of `faces` in canonical order, which is the order they are stored in.
pub fn cubemap_order_of(faces: &Vec<CubeFace>) -> (r: Vec<CubeFace>)
    ensures
        r@ == canonical_subset(faces@, 6),
{
    let all = all_faces();
    let mut out: Vec<CubeFace> = Vec::new();
    let mut k: usize = 0;
    while k < 6
        invariant
            k <= 6,
            all@ == canonical_faces(),
            out@ == canonical_subset(faces@, k as nat),
        decreases 6 - k,
    {
        if contains_face(faces, all[k]) {
            out.push(all[k]);
        }
        k += 1;
    }
    out
}

/// A face is in the canonical selection of `fs` exactly where it is among the
/// first `k` faces and in `fs`.
pub proof fn lemma_canonical_subset_contains(fs: Seq<CubeFace>, k: nat, f: CubeFace)
    requires
        k <= 6,
    ensures
        canonical_subset(fs, k).contains(f) == (fs.contains(f) && face_index(f) < k),
    decreases k,
{
    lemma_canonical_faces();
    if k > 0 {
        lemma_canonical_subset_contains(fs, (k - 1) as nat, f);
        let g = canonical_faces()[k - 1];
        let prev = canonical_subset(fs, (k - 1) as nat);
        if fs.contains(g) {
            assert(prev.push(g).contains(f) == (prev.contains(f) || f == g)) by {
                if f == g {
                    assert(prev.push(g)[prev.len() as int] == g);
                }
                if prev.push(g).contains(f) && f != g {
                    let i = choose|i: int| 0 <= i < prev.push(g).len() && prev.push(g)[i] == f;
                    assert(prev[i] == f);
                }
                if prev.contains(f) {
                    let i = choose|i: int| 0 <= i < prev.len() && prev[i] == f;
                    assert(prev.push(g)[i] == f);
                }
            }
        }
        assert(f == g <==> face_index(f) == k - 1);
    }
}

/// Putting faces in canonical order twice is putting them in order once.
pub proof fn lemma_canonical_subset_idempotent(fs: Seq<CubeFace>, k: nat)
    requires
        k <= 6,
    ensures
        canonical_subset(canonical_subset(fs, 6), k) == canonical_subset(fs, k),
    decreases k,
{
    lemma_canonical_faces();
    if k > 0 {
        lemma_canonical_subset_idempotent(fs, (k - 1) as nat);
        lemma_canonical_subset_contains(fs, 6, canonical_faces()[k - 1]);
    }
}

/// Selects part of a texture: one face, one mip level or one array layer.
#[derive(Debug, Clone, Copy, PartialEq, Eq, Structural)]
pub enum TextureIndex {
    Face(CubeFace),
    Mip(usize),
    Layer(usize),
}

impl TextureIndex {
    /// The index after this one: the next mip or layer, or the next face in
    /// canonical order, wrapping from −Z around to +X.
    pub fn next(&self) -> (r: TextureIndex)
        requires
            self matches TextureIndex::Mip(m) ==> m < usize::MAX,
            self matches TextureIndex::Layer(l) ==> l < usize::MAX,
        ensures
            self matches TextureIndex::Face(f) ==> r == TextureIndex::Face(
                canonical_faces()[((face_index(*f) + 1) % 6) as int],
            ),
            self matches TextureIndex::Mip(m) ==> r == TextureIndex::Mip((m + 1) as usize),
            self matches TextureIndex::Layer(l) ==> r == TextureIndex::Layer((l + 1) as usize),
    {
        match self {
            TextureIndex::Face(f) => {
                let faces = all_faces();
                let i = (cubemap_order(f) + 1) % 6;
                TextureIndex::Face(faces[i])
            },
            TextureIndex::Mip(m) => TextureIndex::Mip(*m + 1),
            TextureIndex::Layer(l) => TextureIndex::Layer(*l + 1),
        }
    }
}

/// Why a set of textures does not make a valid mipmap, cubemap or array.
#[derive(Debug, Clone, Copy, PartialEq, Eq)]
pub enum ShapeError {
    /// The textures disagree on the named property.
    NonUniform(&'static str),
    /// The textures already have the named structure.
    Nested(&'static str),
    /// The textures' dimensions do not follow the mip chain of the first.
    InvalidMipChain,
    /// Two textures were given for the same cubemap face.
    DuplicateFaces,
    /// No textures were given for the named structure.
    Empty(&'static str),
}

/// The properties that the children of a node are compared on.
#[derive(Debug, Clone, Copy, PartialEq, Eq, Structural)]
pub enum ShapeAspect {
    Dimensions,
    Mips,
    Layers,
    Faces,
}

/// A texture shape as a mathematical value: what a [`TextureShapeNode`] holds.
pub enum ShapeView {
    Array(Seq<ShapeView>),
    CubeMap(Seq<(CubeFace, ShapeView)>),
    MipMap(Seq<ShapeView>),
    Surface(SurfaceView),
}

/// The faces of a cubemap's entries, in stored order.
pub open spec fn entry_faces(v: Seq<(CubeFace, ShapeView)>) -> Seq<CubeFace> {
    Seq::new(v.len(), |i: int| v[i].0)
}

/// The subtrees of a cubemap's entries, in stored order.
pub open spec fn entry_trees(v: Seq<(CubeFace, ShapeView)>) -> Seq<ShapeView> {
    Seq::new(v.len(), |i: int| v[i].1)
}

/// A count as a mathematical value.
pub open spec fn opt_nat(o: Option<usize>) -> Option<nat> {
    match o {
        Some(n) => Some(n as nat),
        None => None,
    }
}

/// The position of the first entry for face `f`.
pub open spec fn first_entry(v: Seq<(CubeFace, ShapeView)>, f: CubeFace) -> int {
    choose|i: int| 0 <= i < v.len() && v[i].0 == f && forall|j: int| 0 <= j < i ==> v[j].0 != f
}

/// Two face lists hold the same faces, in whatever order.
pub open spec fn same_face_set_spec(x: Seq<CubeFace>, y: Seq<CubeFace>) -> bool {
    forall|f: CubeFace| #[trigger] x.contains(f) == y.contains(f)
}

/// Two optional face lists name the same set of faces (or are both absent).
pub open spec fn same_faces(a: Option<Seq<CubeFace>>, b: Option<Seq<CubeFace>>) -> bool {
    ||| a is None && b is None
    ||| a is Some && b is Some && same_face_set_spec(a->Some_0, b->Some_0)
}

impl ShapeView {
    /// The dimensions of the largest surface: those found by descending through first children.
    pub open spec fn dims(self) -> Dimensions
        decreases self,
    {
        match self {
            ShapeView::Surface(s) => s.dimensions,
            ShapeView::Array(v) => if v.len() > 0 {
                v[0].dims()
            } else {
                Dimensions::_1D(1)
            },
            ShapeView::MipMap(v) => if v.len() > 0 {
                v[0].dims()
            } else {
                Dimensions::_1D(1)
            },
            ShapeView::CubeMap(v) => if v.len() > 0 {
                v[0].1.dims()
            } else {
                Dimensions::_1D(1)
            },
        }
    }

    /// The number of mip levels, if a mipmap lies on the path through first children.
    pub open spec fn mips(self) -> Option<nat>
        decreases self,
    {
        match self {
            ShapeView::Surface(_) => None,
            ShapeView::MipMap(v) => Some(v.len()),
            ShapeView::Array(v) => if v.len() > 0 {
                v[0].mips()
            } else {
                None
            },
            ShapeView::CubeMap(v) => if v.len() > 0 {
                v[0].1.mips()
            } else {
                None
            },
        }
    }

    /// The number of array layers, if an array lies on the path through first children.
    pub open spec fn layers(self) -> Option<nat>
        decreases self,
    {
        match self {
            ShapeView::Surface(_) => None,
            ShapeView::Array(v) => Some(v.len()),
            ShapeView::MipMap(v) => if v.len() > 0 {
                v[0].layers()
            } else {
                None
            },
            ShapeView::CubeMap(v) => if v.len() > 0 {
                v[0].1.layers()
            } else {
                None
            },
        }
    }

    /// The faces of the cubemap on the path through first children, in stored order.
    pub open spec fn faces(self) -> Option<Seq<CubeFace>>
        decreases self,
    {
        match self {
            ShapeView::Surface(_) => None,
            ShapeView::CubeMap(v) => Some(entry_faces(v)),
            ShapeView::Array(v) => if v.len() > 0 {
                v[0].faces()
            } else {
                None
            },
            ShapeView::MipMap(v) => if v.len() > 0 {
                v[0].faces()
            } else {
                None
            },
        }
    }

    /// `a` and `b` agree on the property `p`.
    pub open spec fn agree(p: ShapeAspect, a: ShapeView, b: ShapeView) -> bool {
        match p {
            ShapeAspect::Dimensions => a.dims() == b.dims(),
            ShapeAspect::Mips => a.mips() == b.mips(),
            ShapeAspect::Layers => a.layers() == b.layers(),
            ShapeAspect::Faces => same_faces(a.faces(), b.faces()),
        }
    }

    /// `a` has the structure `p` (dimensions are no structure).
    pub open spec fn has(p: ShapeAspect, a: ShapeView) -> bool {
        match p {
            ShapeAspect::Dimensions => false,
            ShapeAspect::Mips => a.mips() is Some,
            ShapeAspect::Layers => a.layers() is Some,
            ShapeAspect::Faces => a.faces() is Some,
        }
    }

    /// Every tree of `s` agrees with the first on `p`.
    pub open spec fn uniform(p: ShapeAspect, s: Seq<ShapeView>) -> bool {
        forall|i: int| 0 <= i < s.len() ==> Self::agree(p, #[trigger] s[i], s[0])
    }

    /// Some tree of `s` has the structure `p`.
    pub open spec fn nested(p: ShapeAspect, s: Seq<ShapeView>) -> bool {
        exists|i: int| 0 <= i < s.len() && Self::has(p, #[trigger] s[i])
    }

    /// The dimensions of the trees of `s` are the start of the mip chain of the first.
    pub open spec fn mip_chain_ok(s: Seq<ShapeView>) -> bool {
        &&& s.len() <= s[0].dims().mip_count()
        &&& forall|i: int| 0 <= i < s.len() ==> (#[trigger] s[i]).dims() == s[0].dims().mip_at(i as nat)
    }

    /// The checks that a mipmap of the trees `s` passes.
    pub open spec fn mipmap_ok(s: Seq<ShapeView>) -> bool {
        &&& s.len() > 0
        &&& Self::mip_chain_ok(s)
        &&& Self::uniform(ShapeAspect::Layers, s)
        &&& Self::uniform(ShapeAspect::Faces, s)
        &&& !Self::nested(ShapeAspect::Mips, s)
    }

    /// The checks that a cubemap of the entries `v` passes.
    pub open spec fn cubemap_ok(v: Seq<(CubeFace, ShapeView)>) -> bool {
        &&& v.len() > 0
        &&& entry_faces(v).no_duplicates()
        &&& Self::uniform(ShapeAspect::Dimensions, entry_trees(v))
        &&& Self::uniform(ShapeAspect::Mips, entry_trees(v))
        &&& Self::uniform(ShapeAspect::Layers, entry_trees(v))
        &&& !Self::nested(ShapeAspect::Faces, entry_trees(v))
    }

    /// The checks that an array of the trees `s` passes.
    pub open spec fn array_ok(s: Seq<ShapeView>) -> bool {
        &&& s.len() > 0
        &&& Self::uniform(ShapeAspect::Dimensions, s)
        &&& Self::uniform(ShapeAspect::Mips, s)
        &&& Self::uniform(ShapeAspect::Faces, s)
        &&& !Self::nested(ShapeAspect::Layers, s)
    }

    /// The first check that a mipmap of the trees `s` fails, if any, in the order
    /// emptiness, mip chain, uniform layers, uniform faces, nesting.
    pub open spec fn mipmap_error(s: Seq<ShapeView>) -> Option<ShapeError> {
        if s.len() == 0 {
            Some(ShapeError::Empty("mipmap"))
        } else if !Self::mip_chain_ok(s) {
            Some(ShapeError::InvalidMipChain)
        } else if !Self::uniform(ShapeAspect::Layers, s) {
            Some(ShapeError::NonUniform("layers"))
        } else if !Self::uniform(ShapeAspect::Faces, s) {
            Some(ShapeError::NonUniform("faces"))
        } else if Self::nested(ShapeAspect::Mips, s) {
            Some(ShapeError::Nested("mipmap"))
        } else {
            None
        }
    }

    /// The first check that a cubemap of the entries `v` fails, if any, in the
    /// order repeated face, emptiness, uniform dimensions, mips and layers, nesting.
    pub open spec fn cubemap_error(v: Seq<(CubeFace, ShapeView)>) -> Option<ShapeError> {
        if !entry_faces(v).no_duplicates() {
            Some(ShapeError::DuplicateFaces)
        } else if v.len() == 0 {
            Some(ShapeError::Empty("cube"))
        } else if !Self::uniform(ShapeAspect::Dimensions, entry_trees(v)) {
            Some(ShapeError::NonUniform("dimensions"))
        } else if !Self::uniform(ShapeAspect::Mips, entry_trees(v)) {
            Some(ShapeError::NonUniform("mips"))
        } else if !Self::uniform(ShapeAspect::Layers, entry_trees(v)) {
            Some(ShapeError::NonUniform("layers"))
        } else if Self::nested(ShapeAspect::Faces, entry_trees(v)) {
            Some(ShapeError::Nested("cube"))
        } else {
            None
        }
    }

    /// The first check that an array of the trees `s` fails, if any, in the order
    /// emptiness, uniform dimensions, mips and faces, nesting.
    pub open spec fn array_error(s: Seq<ShapeView>) -> Option<ShapeError> {
        if s.len() == 0 {
            Some(ShapeError::Empty("array"))
        } else if !Self::uniform(ShapeAspect::Dimensions, s) {
            Some(ShapeError::NonUniform("dimensions"))
        } else if !Self::uniform(ShapeAspect::Mips, s) {
            Some(ShapeError::NonUniform("mips"))
        } else if !Self::uniform(ShapeAspect::Faces, s) {
            Some(ShapeError::NonUniform("faces"))
        } else if Self::nested(ShapeAspect::Layers, s) {
            Some(ShapeError::Nested("array"))
        } else {
            None
        }
    }

    /// The part of the tree that `index` selects.
    ///
    /// A surface has no parts. A node of the index's own kind gives the selected
    /// child (dropping the node around it), or nothing where there is none. Any
    /// other node gives a node of its own kind over the selections made in
    /// each child, or nothing where a child has nothing to give.
    pub open spec fn get(self, index: TextureIndex) -> Option<ShapeView>
        decreases self,
    {
        match self {
            ShapeView::Surface(_) => None,
            ShapeView::CubeMap(v) => match index {
                TextureIndex::Face(f) => if exists|i: int| 0 <= i < v.len() && v[i].0 == f {
                    Some(v[first_entry(v, f)].1)
                } else {
                    None
                },
                _ => if forall|i: int| 0 <= i < v.len() ==> (#[trigger] v[i]).1.get(index) is Some {
                    Some(
                        ShapeView::CubeMap(
                            Seq::new(
                                v.len(),
                                |i: int|
                                    if 0 <= i < v.len() {
                                        (v[i].0, v[i].1.get(index)->Some_0)
                                    } else {
                                        (CubeFace::PositiveX, ShapeView::Array(Seq::empty()))
                                    },
                            ),
                        ),
                    )
                } else {
                    None
                },
            },
            ShapeView::MipMap(v) => match index {
                TextureIndex::Mip(m) => if m < v.len() {
                    Some(v[m as int])
                } else {
                    None
                },
                _ => if forall|i: int| 0 <= i < v.len() ==> (#[trigger] v[i]).get(index) is Some {
                    Some(
                        ShapeView::MipMap(
                            Seq::new(
                                v.len(),
                                |i: int|
                                    if 0 <= i < v.len() {
                                        v[i].get(index)->Some_0
                                    } else {
                                        ShapeView::Array(Seq::empty())
                                    },
                            ),
                        ),
                    )
                } else {
                    None
                },
            },
            ShapeView::Array(v) => match index {
                TextureIndex::Layer(l) => if l < v.len() {
                    Some(v[l as int])
                } else {
                    None
                },
                _ => if forall|i: int| 0 <= i < v.len() ==> (#[trigger] v[i]).get(index) is Some {
                    Some(
                        ShapeView::Array(
                            Seq::new(
                                v.len(),
                                |i: int|
                                    if 0 <= i < v.len() {
                                        v[i].get(index)->Some_0
                                    } else {
                                        ShapeView::Array(Seq::empty())
                                    },
                            ),
                        ),
                    )
                } else {
                    None
                },
            },
        }
    }

    /// The shape invariants: every node is non-empty, holds no node of its own
    /// kind, has uniform children, and a mipmap's levels follow the mip chain;
    /// a cubemap names each face at most once; surfaces are well formed.
    pub open spec fn wf(self) -> bool
        decreases self,
    {
        match self {
            ShapeView::Surface(s) => s.dimensions.wf(),
            ShapeView::MipMap(v) => Self::mipmap_ok(v) && forall|i: int|
                0 <= i < v.len() ==> (#[trigger] v[i]).wf(),
            ShapeView::CubeMap(v) => Self::cubemap_ok(v) && forall|i: int|
                0 <= i < v.len() ==> (#[trigger] v[i]).1.wf(),
            ShapeView::Array(v) => Self::array_ok(v) && forall|i: int|
                0 <= i < v.len() ==> (#[trigger] v[i]).wf(),
        }
    }
}

/// One node of a texture shape.
#[derive(Debug)]
pub enum TextureShapeNode {
    /// A node representing a texture array
    Array(Vec<TextureShapeNode>),
    /// A node representing a cubemap
    CubeMap(Vec<(CubeFace, TextureShapeNode)>),
    /// A node representing a mipmap
    MipMap(Vec<TextureShapeNode>),
    /// A node representing a single surface
    Surface(Surface),
}

/// The views of a sequence of nodes.
pub open spec fn node_views(v: Seq<TextureShapeNode>) -> Seq<ShapeView> {
    Seq::new(v.len(), |i: int| v[i]@)
}

/// The views of a sequence of cubemap entries.
pub open spec fn entry_views(v: Seq<(CubeFace, TextureShapeNode)>) -> Seq<(CubeFace, ShapeView)> {
    Seq::new(v.len(), |i: int| (v[i].0, v[i].1@))
}

/// What a node holds, as a mathematical value.
pub open spec fn shape_view(n: TextureShapeNode) -> ShapeView
    decreases n,
{
    match n {
        TextureShapeNode::Array(v) => ShapeView::Array(
            Seq::new(
                v.len() as nat,
                |i: int|
                    if 0 <= i < v.len() {
                        shape_view(v[i])
                    } else {
                        ShapeView::Array(Seq::empty())
                    },
            ),
        ),
        TextureShapeNode::CubeMap(v) => ShapeView::CubeMap(
            Seq::new(
                v.len() as nat,
                |i: int|
                    if 0 <= i < v.len() {
                        (v[i].0, shape_view(v[i].1))
                    } else {
                        (CubeFace::PositiveX, ShapeView::Array(Seq::empty()))
                    },
            ),
        ),
        TextureShapeNode::MipMap(v) => ShapeView::MipMap(
            Seq::new(
                v.len() as nat,
                |i: int|
                    if 0 <= i < v.len() {
                        shape_view(v[i])
                    } else {
                        ShapeView::Array(Seq::empty())
                    },
            ),
        ),
        TextureShapeNode::Surface(s) => ShapeView::Surface(s@),
    }
}

impl View for TextureShapeNode {
    type V = ShapeView;

    open spec fn view(&self) -> ShapeView {
        shape_view(*self)
    }
}

impl TextureShapeNode {
    /// The view of a node in terms of the views of its children.
    pub proof fn lemma_view(&self)
        ensures
            self matches TextureShapeNode::Array(v) ==> self@ == ShapeView::Array(node_views(v@)),
            self matches TextureShapeNode::MipMap(v) ==> self@ == ShapeView::MipMap(node_views(v@)),
            self matches TextureShapeNode::CubeMap(v) ==> self@ == ShapeView::CubeMap(
                entry_views(v@),
            ),
    {
        match self {
            TextureShapeNode::Array(v) => {
                assert(self@->Array_0 =~= node_views(v@));
            },
            TextureShapeNode::MipMap(v) => {
                assert(self@->MipMap_0 =~= node_views(v@));
            },
            TextureShapeNode::CubeMap(v) => {
                assert(self@->CubeMap_0 =~= entry_views(v@));
            },
            TextureShapeNode::Surface(_) => {},
        }
    }
}

/// Whether `faces` holds `f`.
fn contains_face(faces: &Vec<CubeFace>, f: CubeFace) -> (r: bool)
    ensures
        r == faces@.contains(f),
{
    let mut i: usize = 0;
    while i < faces.len()
        invariant
            i <= faces.len(),
            forall|j: int| 0 <= j < i ==> faces@[j] != f,
        decreases faces.len() - i,
    {
        if faces[i] == f {
            return true;
        }
        i += 1;
    }
    false
}

/// Whether two face lists hold the same faces, in whatever order.
fn same_face_set(a: &Vec<CubeFace>, b: &Vec<CubeFace>) -> (r: bool)
    ensures
        r == same_face_set_spec(a@, b@),
{
    let all = all_faces();
    proof {
        lemma_canonical_faces();
    }
    let mut i: usize = 0;
    while i < 6
        invariant
            i <= 6,
            all@ == canonical_faces(),
            forall|j: int| 0 <= j < i ==> a@.contains(#[trigger] canonical_faces()[j]) == b@.contains(canonical_faces()[j]),
        decreases 6 - i,
    {
        if contains_face(a, all[i]) != contains_face(b, all[i]) {
            assert(a@.contains(all@[i as int]) != b@.contains(all@[i as int]));
            return false;
        }
        i += 1;
    }
    assert forall|f: CubeFace| a@.contains(f) == b@.contains(f) by {
        assert(canonical_faces()[face_index(f) as int] == f);
    }
    true
}

impl TextureShapeNode {
    /// A tree of one surface.
    pub fn from_surface(surface: Surface) -> (r: TextureShapeNode)
        ensures
            r@ == ShapeView::Surface(surface@),
    {
        TextureShapeNode::Surface(surface)
    }

    /// The first child of a node, or the node itself for a surface.
    pub fn first_inner(&self) -> (r: &TextureShapeNode)
        requires
            self@.wf(),
        ensures
            r@.wf(),
            self matches TextureShapeNode::Surface(_) ==> r@ == self@,
            self matches TextureShapeNode::Array(v) ==> r@ == self@->Array_0[0],
            self matches TextureShapeNode::MipMap(v) ==> r@ == self@->MipMap_0[0],
            self matches TextureShapeNode::CubeMap(v) ==> r@ == self@->CubeMap_0[0].1,
            !(self matches TextureShapeNode::Surface(_)) ==> r@.dims() == self@.dims(),
    {
        proof {
            self.lemma_view();
        }
        match self {
            TextureShapeNode::Array(l) => &l[0],
            TextureShapeNode::CubeMap(f) => &f[0].1,
            TextureShapeNode::MipMap(m) => &m[0],
            TextureShapeNode::Surface(_) => self,
        }
    }

    /// The dimensions of the largest surface.
    pub fn dimensions(&self) -> (r: Dimensions)
        ensures
            r == self@.dims(),
        decreases self,
    {
        proof {
            self.lemma_view();
        }
        match self {
            TextureShapeNode::Surface(s) => s.dimensions,
            TextureShapeNode::Array(v) => if v.len() == 0 {
                Dimensions::_1D(1)
            } else {
                v[0].dimensions()
            },
            TextureShapeNode::MipMap(v) => if v.len() == 0 {
                Dimensions::_1D(1)
            } else {
                v[0].dimensions()
            },
            TextureShapeNode::CubeMap(v) => if v.len() == 0 {
                Dimensions::_1D(1)
            } else {
                proof {
                    assert(decreases_to!(v => v@[0]));
                    assert(decreases_to!(v@[0] => v@[0].1));
                }
                v[0].1.dimensions()
            },
        }
    }

    /// The number of mip levels, if the texture has a mipmap.
    pub fn mips(&self) -> (r: Option<usize>)
        ensures
            opt_nat(r) == self@.mips(),
        decreases self,
    {
        proof {
            self.lemma_view();
        }
        match self {
            TextureShapeNode::Surface(_) => None,
            TextureShapeNode::MipMap(v) => Some(v.len()),
            TextureShapeNode::Array(v) => if v.len() == 0 {
                None
            } else {
                v[0].mips()
            },
            TextureShapeNode::CubeMap(v) => if v.len() == 0 {
                None
            } else {
                proof {
                    assert(decreases_to!(v => v@[0]));
                    assert(decreases_to!(v@[0] => v@[0].1));
                }
                v[0].1.mips()
            },
        }
    }

    /// The number of array layers, if the texture is an array.
    pub fn layers(&self) -> (r: Option<usize>)
        ensures
            opt_nat(r) == self@.layers(),
        decreases self,
    {
        proof {
            self.lemma_view();
        }
        match self {
            TextureShapeNode::Surface(_) => None,
            TextureShapeNode::Array(v) => Some(v.len()),
            TextureShapeNode::MipMap(v) => if v.len() == 0 {
                None
            } else {
                v[0].layers()
            },
            TextureShapeNode::CubeMap(v) => if v.len() == 0 {
                None
            } else {
                proof {
                    assert(decreases_to!(v => v@[0]));
                    assert(decreases_to!(v@[0] => v@[0].1));
                }
                v[0].1.layers()
            },
        }
    }

    /// The faces of the cubemap, in stored order, if the texture has one.
    pub fn faces(&self) -> (r: Option<Vec<CubeFace>>)
        ensures
            r is None <==> self@.faces() is None,
            r matches Some(f) ==> self@.faces() == Some(f@),
        decreases self,
    {
        proof {
            self.lemma_view();
        }
        match self {
            TextureShapeNode::Surface(_) => None,
            TextureShapeNode::Array(v) => if v.len() == 0 {
                None
            } else {
                v[0].faces()
            },
            TextureShapeNode::MipMap(v) => if v.len() == 0 {
                None
            } else {
                v[0].faces()
            },
            TextureShapeNode::CubeMap(v) => {
                let mut keys: Vec<CubeFace> = Vec::new();
                let mut i: usize = 0;
                while i < v.len()
                    invariant
                        i <= v.len(),
                        keys@ == entry_faces(entry_views(v@)).take(i as int),
                    decreases v.len() - i,
                {
                    keys.push(v[i].0);
                    i += 1;
                    assert(keys@ =~= entry_faces(entry_views(v@)).take(i as int));
                }
                assert(keys@ =~= entry_faces(entry_views(v@)));
                Some(keys)
            },
        }
    }

    /// Whether the texture is a single surface.
    pub fn is_surface(&self) -> (r: bool)
        ensures
            r == (self@ is Surface),
    {
        match self {
            TextureShapeNode::Surface(_) => true,
            _ => false,
        }
    }

    /// The surface, if the texture is a single surface.
    pub fn try_into_surface(self) -> (r: Option<Surface>)
        ensures
            self@ is Surface <==> r is Some,
            r matches Some(s) ==> self@ == ShapeView::Surface(s@),
    {
        match self {
            TextureShapeNode::Surface(s) => Some(s),
            _ => None,
        }
    }

    fn agree(p: ShapeAspect, a: &TextureShapeNode, b: &TextureShapeNode) -> (r: bool)
        requires
            a@.wf(),
            b@.wf(),
        ensures
            r == ShapeView::agree(p, a@, b@),
    {
        match p {
            ShapeAspect::Dimensions => {
                let da = a.dimensions();
                let db = b.dimensions();
                let e = da == db;
                e
            },
            ShapeAspect::Mips => match (a.mips(), b.mips()) {
                (None, None) => true,
                (Some(x), Some(y)) => x == y,
                (Some(x), None) => false,
                (None, Some(y)) => false,
            },
            ShapeAspect::Layers => match (a.layers(), b.layers()) {
                (None, None) => true,
                (Some(x), Some(y)) => x == y,
                (Some(x), None) => false,
                (None, Some(y)) => false,
            },
            ShapeAspect::Faces => match (a.faces(), b.faces()) {
                (None, None) => true,
                (Some(x), Some(y)) => {
                    same_face_set(&x, &y)
                },
                (Some(x), None) => false,
                (None, Some(y)) => false,
            },
        }
    }

    fn has(p: ShapeAspect, a: &TextureShapeNode) -> (r: bool)
        requires
            a@.wf(),
        ensures
            r == ShapeView::has(p, a@),
    {
        match p {
            ShapeAspect::Dimensions => false,
            ShapeAspect::Mips => a.mips().is_some(),
            ShapeAspect::Layers => a.layers().is_some(),
            ShapeAspect::Faces => a.faces().is_some(),
        }
    }

    /// Fails with `NonUniform(what)` unless every node agrees with the first on `p`.
    fn uniformity_check(nodes: &Vec<TextureShapeNode>, p: ShapeAspect, what: &'static str) -> (r:
        Result<(), ShapeError>)
        requires
            forall|i: int| 0 <= i < nodes@.len() ==> (#[trigger] nodes@[i])@.wf(),
        ensures
            r == (if ShapeView::uniform(p, node_views(nodes@)) {
                Ok::<(), ShapeError>(())
            } else {
                Err(ShapeError::NonUniform(what))
            }),
    {
        let ghost s = node_views(nodes@);
        let mut i: usize = 0;
        while i < nodes.len()
            invariant
                i <= nodes.len(),
                s == node_views(nodes@),
                forall|i: int| 0 <= i < nodes@.len() ==> (#[trigger] nodes@[i])@.wf(),
                forall|j: int| 0 <= j < i ==> ShapeView::agree(p, #[trigger] s[j], s[0]),
            decreases nodes.len() - i,
        {
            assert(s[i as int] == nodes@[i as int]@ && s[0] == nodes@[0]@);
            if !Self::agree(p, &nodes[i], &nodes[0]) {
                return Err(ShapeError::NonUniform(what));
            }
            i += 1;
        }
        Ok(())
    }

    /// Fails with `Nested(what)` if any node already has the structure `p`.
    fn nesting_check(nodes: &Vec<TextureShapeNode>, p: ShapeAspect, what: &'static str) -> (r:
        Result<(), ShapeError>)
        requires
            forall|i: int| 0 <= i < nodes@.len() ==> (#[trigger] nodes@[i])@.wf(),
        ensures
            r == (if ShapeView::nested(p, node_views(nodes@)) {
                Err(ShapeError::Nested(what))
            } else {
                Ok::<(), ShapeError>(())
            }),
    {
        let ghost s = node_views(nodes@);
        let mut i: usize = 0;
        while i < nodes.len()
            invariant
                i <= nodes.len(),
                s == node_views(nodes@),
                forall|i: int| 0 <= i < nodes@.len() ==> (#[trigger] nodes@[i])@.wf(),
                forall|j: int| 0 <= j < i ==> !ShapeView::has(p, #[trigger] s[j]),
            decreases nodes.len() - i,
        {
            assert(s[i as int] == nodes@[i as int]@);
            if Self::has(p, &nodes[i]) {
                return Err(ShapeError::Nested(what));
            }
            i += 1;
        }
        Ok(())
    }
}

impl TextureShapeNode {
    /// Makes a mipmap of `children`, largest level first.
    ///
    /// Fails with `Empty("mipmap")` for no children, `InvalidMipChain` unless
    /// the children's dimensions are the start of the mip chain of the first,
    /// `NonUniform("layers")` or `NonUniform("faces")` where they disagree on
    /// those, and `Nested("mipmap")` where one already has mips.
    pub fn try_from_mips(children: Vec<TextureShapeNode>) -> (r: Result<
        TextureShapeNode,
        ShapeError,
    >)
        requires
            forall|i: int| 0 <= i < children@.len() ==> (#[trigger] children@[i])@.wf(),
        ensures
            match ShapeView::mipmap_error(node_views(children@)) {
                Some(e) => r == Err::<TextureShapeNode, ShapeError>(e),
                None => r matches Ok(t) && t@ == ShapeView::MipMap(node_views(children@)),
            },
            r matches Ok(t) ==> t@.wf(),
    {
        let ghost s = node_views(children@);
        if children.len() == 0 {
            return Err(ShapeError::Empty("mipmap"));
        }
        assert(s[0] == children@[0]@);
        let d0 = children[0].dimensions();
        proof {
            lemma_wf_dims(s[0]);
            d0.lemma_mip_chain_elements();
        }
        let mut it = d0.mips();
        let mut i: usize = 0;
        while i < children.len()
            invariant
                i <= children.len(),
                s == node_views(children@),
                d0 == s[0].dims(),
                d0.wf(),
                it.wf(),
                i <= d0.mip_count(),
                it.remaining() == d0.mip_chain().skip(i as int),
                forall|i: int| 0 <= i < children@.len() ==> (#[trigger] children@[i])@.wf(),
                forall|j: int| 0 <= j < i ==> (#[trigger] s[j]).dims() == d0.mip_at(j as nat),
            decreases children.len() - i,
        {
            assert(s[i as int] == children@[i as int]@);
            match it.next() {
                Some(d) => {
                    if !(d == children[i].dimensions()) {
                        assert(!ShapeView::mip_chain_ok(s));
                        return Err(ShapeError::InvalidMipChain);
                    }
                },
                None => {
                    assert(!ShapeView::mip_chain_ok(s));
                    return Err(ShapeError::InvalidMipChain);
                },
            }
            i += 1;
            assert(it.remaining() =~= d0.mip_chain().skip(i as int));
        }
        assert(ShapeView::mip_chain_ok(s));
        match Self::uniformity_check(&children, ShapeAspect::Layers, "layers") {
            Ok(()) => {},
            Err(e) => return Err(e),
        }
        match Self::uniformity_check(&children, ShapeAspect::Faces, "faces") {
            Ok(()) => {},
            Err(e) => return Err(e),
        }
        match Self::nesting_check(&children, ShapeAspect::Mips, "mipmap") {
            Ok(()) => {},
            Err(e) => return Err(e),
        }
        let r = TextureShapeNode::MipMap(children);
        proof {
            r.lemma_view();
        }
        Ok(r)
    }

    /// Makes an array of `children`.
    ///
    /// Fails with `Empty("array")` for no children, `NonUniform(_)` where they
    /// disagree on dimensions, mips or faces, and `Nested("array")` where one
    /// already is an array.
    pub fn try_from_layers(children: Vec<TextureShapeNode>) -> (r: Result<
        TextureShapeNode,
        ShapeError,
    >)
        requires
            forall|i: int| 0 <= i < children@.len() ==> (#[trigger] children@[i])@.wf(),
        ensures
            match ShapeView::array_error(node_views(children@)) {
                Some(e) => r == Err::<TextureShapeNode, ShapeError>(e),
                None => r matches Ok(t) && t@ == ShapeView::Array(node_views(children@)),
            },
            r matches Ok(t) ==> t@.wf(),
    {
        if children.len() == 0 {
            return Err(ShapeError::Empty("array"));
        }
        match Self::uniformity_check(&children, ShapeAspect::Dimensions, "dimensions") {
            Ok(()) => {},
            Err(e) => return Err(e),
        }
        match Self::uniformity_check(&children, ShapeAspect::Mips, "mips") {
            Ok(()) => {},
            Err(e) => return Err(e),
        }
        match Self::uniformity_check(&children, ShapeAspect::Faces, "faces") {
            Ok(()) => {},
            Err(e) => return Err(e),
        }
        match Self::nesting_check(&children, ShapeAspect::Layers, "array") {
            Ok(()) => {},
            Err(e) => return Err(e),
        }
        let r = TextureShapeNode::Array(children);
        proof {
            r.lemma_view();
        }
        Ok(r)
    }

    /// Makes a cubemap of `(face, child)` entries.
    ///
    /// Fails with `DuplicateFaces` where a face is given twice, `Empty("cube")`
    /// for no entries, `NonUniform(_)` where the children disagree on
    /// dimensions, mips or layers, and `Nested("cube")` where one already has
    /// faces.
    pub fn try_from_faces(children: Vec<(CubeFace, TextureShapeNode)>) -> (r: Result<
        TextureShapeNode,
        ShapeError,
    >)
        requires
            forall|i: int| 0 <= i < children@.len() ==> (#[trigger] children@[i]).1@.wf(),
        ensures
            match ShapeView::cubemap_error(entry_views(children@)) {
                Some(e) => r == Err::<TextureShapeNode, ShapeError>(e),
                None => r matches Ok(t) && t@ == ShapeView::CubeMap(entry_views(children@)),
            },
            r matches Ok(t) ==> t@.wf(),
    {
        let ghost v = entry_views(children@);
        let mut i: usize = 0;
        while i < children.len()
            invariant
                i <= children.len(),
                v == entry_views(children@),
                forall|a: int, b: int|
                    0 <= a < i && 0 <= b < i && a != b ==> #[trigger] entry_faces(v)[a]
                        != #[trigger] entry_faces(v)[b],
            decreases children.len() - i,
        {
            let mut j: usize = 0;
            while j < i
                invariant
                    j <= i < children.len(),
                    v == entry_views(children@),
                    forall|b: int| 0 <= b < j ==> #[trigger] entry_faces(v)[b] != entry_faces(v)[i as int],
                decreases i - j,
            {
                if children[j].0 == children[i].0 {
                    assert(entry_faces(v)[j as int] == entry_faces(v)[i as int]);
                    assert(!entry_faces(v).no_duplicates());
                    return Err(ShapeError::DuplicateFaces);
                }
                j += 1;
            }
            i += 1;
        }
        assert(entry_faces(v).no_duplicates());
        if children.len() == 0 {
            return Err(ShapeError::Empty("cube"));
        }
        let mut trees: Vec<TextureShapeNode> = Vec::new();
        let mut k: usize = 0;
        while k < children.len()
            invariant
                k <= children.len(),
                v == entry_views(children@),
                trees@.len() == k,
                forall|a: int| 0 <= a < k ==> (#[trigger] trees@[a])@ == children@[a].1@,
            decreases children.len() - k,
        {
            trees.push(children[k].1.clone());
            k += 1;
        }
        assert(node_views(trees@) =~= entry_trees(v));
        match Self::uniformity_check(&trees, ShapeAspect::Dimensions, "dimensions") {
            Ok(()) => {},
            Err(e) => return Err(e),
        }
        match Self::uniformity_check(&trees, ShapeAspect::Mips, "mips") {
            Ok(()) => {},
            Err(e) => return Err(e),
        }
        match Self::uniformity_check(&trees, ShapeAspect::Layers, "layers") {
            Ok(()) => {},
            Err(e) => return Err(e),
        }
        match Self::nesting_check(&trees, ShapeAspect::Faces, "cube") {
            Ok(()) => {},
            Err(e) => return Err(e),
        }
        let r = TextureShapeNode::CubeMap(children);
        proof {
            r.lemma_view();
        }
        Ok(r)
    }
}

impl TextureShapeNode {
    fn get_each(v: &Vec<TextureShapeNode>, index: TextureIndex) -> (r: Option<Vec<TextureShapeNode>>)
        ensures
            r is Some <==> forall|i: int| 0 <= i < v@.len() ==> (#[trigger] v@[i])@.get(index) is Some,
            r matches Some(w) ==> w@.len() == v@.len() && forall|i: int| 0 <= i < v@.len() ==> Some(
                (#[trigger] w@[i])@,
            ) == v@[i]@.get(index),
        decreases v, 0nat,
    {
        let mut out: Vec<TextureShapeNode> = Vec::new();
        let mut i: usize = 0;
        while i < v.len()
            invariant
                i <= v.len(),
                out@.len() == i,
                forall|j: int| 0 <= j < i ==> Some((#[trigger] out@[j])@) == v@[j]@.get(index),
            decreases v.len() - i,
        {
            proof {
                assert(decreases_to!(v => v@[i as int]));
            }
            match v[i].get(index) {
                Some(t) => out.push(t),
                None => return None,
            }
            i += 1;
        }
        assert forall|i: int| 0 <= i < v@.len() implies (#[trigger] v@[i])@.get(index) is Some by {
            assert(Some(out@[i]@) == v@[i]@.get(index));
        }
        Some(out)
    }

    fn get_each_entry(v: &Vec<(CubeFace, TextureShapeNode)>, index: TextureIndex) -> (r: Option<
        Vec<(CubeFace, TextureShapeNode)>,
    >)
        ensures
            r is Some <==> forall|i: int| 0 <= i < v@.len() ==> (#[trigger] v@[i]).1@.get(index) is Some,
            r matches Some(w) ==> w@.len() == v@.len() && forall|i: int|
                0 <= i < v@.len() ==> (#[trigger] w@[i]).0 == v@[i].0 && Some(w@[i].1@)
                    == v@[i].1@.get(index),
        decreases v, 0nat,
    {
        let mut out: Vec<(CubeFace, TextureShapeNode)> = Vec::new();
        let mut i: usize = 0;
        while i < v.len()
            invariant
                i <= v.len(),
                out@.len() == i,
                forall|j: int|
                    0 <= j < i ==> (#[trigger] out@[j]).0 == v@[j].0 && Some(out@[j].1@)
                        == v@[j].1@.get(index),
            decreases v.len() - i,
        {
            proof {
                assert(decreases_to!(v => v@[i as int]));
                assert(decreases_to!(v@[i as int] => v@[i as int].1));
            }
            match v[i].1.get(index) {
                Some(t) => out.push((v[i].0, t)),
                None => return None,
            }
            i += 1;
        }
        assert forall|i: int| 0 <= i < v@.len() implies (#[trigger] v@[i]).1@.get(index) is Some by {
            assert(Some(out@[i].1@) == v@[i].1@.get(index));
        }
        Some(out)
    }

    /// The part of the texture that `index` selects (see [`ShapeView::get`]):
    /// `None` where the texture lacks that structure or the index is out of range.
    pub fn get(&self, index: TextureIndex) -> (r: Option<TextureShapeNode>)
        ensures
            r is None <==> self@.get(index) is None,
            r matches Some(t) ==> self@.get(index) == Some(t@),
        decreases self, 1nat,
    {
        proof {
            self.lemma_view();
        }
        match self {
            TextureShapeNode::Surface(_) => None,
            TextureShapeNode::CubeMap(v) => {
                let ghost sv = self@->CubeMap_0;
                match index {
                    TextureIndex::Face(f) => {
                        let mut i: usize = 0;
                        while i < v.len()
                            invariant
                                i <= v.len(),
                                sv == entry_views(v@),
                                sv == self@->CubeMap_0,
                                self@ == ShapeView::CubeMap(sv),
                                index == TextureIndex::Face(f),
                                forall|j: int| 0 <= j < i ==> (#[trigger] sv[j]).0 != f,
                            decreases v.len() - i,
                        {
                            if v[i].0 == f {
                                proof {
                                    assert(sv[i as int].0 == f);
                                    assert(exists|c: int| 0 <= c < sv.len() && sv[c].0 == f && forall|j: int| 0 <= j < c ==> sv[j].0 != f);
                                    let c = first_entry(sv, f);
                                    assert(c == i);
                                    assert(self@.get(index) == Some(sv[i as int].1));
                                }
                                return Some(v[i].1.clone());
                            }
                            i += 1;
                        }
                        None
                    },
                    _ => match Self::get_each_entry(v, index) {
                        Some(w) => {
                            let r = TextureShapeNode::CubeMap(w);
                            proof {
                                r.lemma_view();
                                assert(r@->CubeMap_0 =~= self@.get(index)->Some_0->CubeMap_0);
                            }
                            Some(r)
                        },
                        None => {
                            proof {
                                let i = choose|i: int| 0 <= i < v@.len() && !((#[trigger] v@[i]).1@.get(index) is Some);
                                assert(sv[i].1.get(index) is None);
                            }
                            None
                        },
                    },
                }
            },
            TextureShapeNode::MipMap(v) => match index {
                TextureIndex::Mip(m) => if m < v.len() {
                    Some(v[m].clone())
                } else {
                    None
                },
                _ => match Self::get_each(v, index) {
                    Some(w) => {
                        let r = TextureShapeNode::MipMap(w);
                        proof {
                            r.lemma_view();
                            assert(r@->MipMap_0 =~= self@.get(index)->Some_0->MipMap_0);
                        }
                        Some(r)
                    },
                    None => {
                        proof {
                            let i = choose|i: int| 0 <= i < v@.len() && !((#[trigger] v@[i])@.get(index) is Some);
                            assert(self@->MipMap_0[i].get(index) is None);
                        }
                        None
                    },
                },
            },
            TextureShapeNode::Array(v) => match index {
                TextureIndex::Layer(l) => if l < v.len() {
                    Some(v[l].clone())
                } else {
                    None
                },
                _ => match Self::get_each(v, index) {
                    Some(w) => {
                        let r = TextureShapeNode::Array(w);
                        proof {
                            r.lemma_view();
                            assert(r@->Array_0 =~= self@.get(index)->Some_0->Array_0);
                        }
                        Some(r)
                    },
                    None => {
                        proof {
                            let i = choose|i: int| 0 <= i < v@.len() && !((#[trigger] v@[i])@.get(index) is Some);
                            assert(self@->Array_0[i].get(index) is None);
                        }
                        None
                    },
                },
            },
        }
    }
}

/// Selecting an existing layer of a well-formed tree always gives a part.
pub proof fn lemma_layer_defined(t: ShapeView, l: usize)
    requires
        t.wf(),
        t.layers() matches Some(n) && l < n,
    ensures
        t.get(TextureIndex::Layer(l)) is Some,
    decreases t,
{
    match t {
        ShapeView::Surface(_) => {},
        ShapeView::Array(v) => {},
        ShapeView::MipMap(v) => {
            assert forall|i: int| 0 <= i < v.len() implies (#[trigger] v[i]).get(TextureIndex::Layer(l)) is Some by {
                assert(ShapeView::agree(ShapeAspect::Layers, v[i], v[0]));
                lemma_layer_defined(v[i], l);
            }
        },
        ShapeView::CubeMap(v) => {
            assert forall|i: int| 0 <= i < v.len() implies (#[trigger] v[i]).1.get(TextureIndex::Layer(l)) is Some by {
                assert(entry_trees(v)[i] == v[i].1);
                assert(ShapeView::agree(ShapeAspect::Layers, entry_trees(v)[i], entry_trees(v)[0]));
                lemma_layer_defined(v[i].1, l);
            }
        },
    }
}

/// Selecting an existing mip level of a well-formed tree always gives a part.
pub proof fn lemma_mip_defined(t: ShapeView, m: usize)
    requires
        t.wf(),
        t.mips() matches Some(n) && m < n,
    ensures
        t.get(TextureIndex::Mip(m)) is Some,
    decreases t,
{
    match t {
        ShapeView::Surface(_) => {},
        ShapeView::MipMap(v) => {},
        ShapeView::Array(v) => {
            assert forall|i: int| 0 <= i < v.len() implies (#[trigger] v[i]).get(TextureIndex::Mip(m)) is Some by {
                assert(ShapeView::agree(ShapeAspect::Mips, v[i], v[0]));
                lemma_mip_defined(v[i], m);
            }
        },
        ShapeView::CubeMap(v) => {
            assert forall|i: int| 0 <= i < v.len() implies (#[trigger] v[i]).1.get(TextureIndex::Mip(m)) is Some by {
                assert(entry_trees(v)[i] == v[i].1);
                assert(ShapeView::agree(ShapeAspect::Mips, entry_trees(v)[i], entry_trees(v)[0]));
                lemma_mip_defined(v[i].1, m);
            }
        },
    }
}

/// Selecting a face that a well-formed tree has always gives a part.
pub proof fn lemma_face_defined(t: ShapeView, f: CubeFace)
    requires
        t.wf(),
        t.faces() matches Some(fs) && fs.contains(f),
    ensures
        t.get(TextureIndex::Face(f)) is Some,
    decreases t,
{
    match t {
        ShapeView::Surface(_) => {},
        ShapeView::CubeMap(v) => {
            let i = choose|i: int| 0 <= i < entry_faces(v).len() && entry_faces(v)[i] == f;
            assert(v[i].0 == f);
        },
        ShapeView::Array(v) => {
            assert forall|i: int| 0 <= i < v.len() implies (#[trigger] v[i]).get(TextureIndex::Face(f)) is Some by {
                assert(ShapeView::agree(ShapeAspect::Faces, v[i], v[0]));
                lemma_face_defined(v[i], f);
            }
        },
        ShapeView::MipMap(v) => {
            assert forall|i: int| 0 <= i < v.len() implies (#[trigger] v[i]).get(TextureIndex::Face(f)) is Some by {
                assert(ShapeView::agree(ShapeAspect::Faces, v[i], v[0]));
                lemma_face_defined(v[i], f);
            }
        },
    }
}

impl TextureShapeNode {
    /// Each array layer with its index, or `(None, self)` where there is no array.
    pub fn iter_layers(&self) -> (r: Vec<(Option<usize>, TextureShapeNode)>)
        requires
            self@.wf(),
        ensures
            self@.layers() is None ==> r@.len() == 1 && r@[0].0 is None && r@[0].1@ == self@,
            self@.layers() matches Some(n) ==> r@.len() == n && forall|l: int|
                0 <= l < n ==> (#[trigger] r@[l]).0 == Some(l as usize) && self@.get(
                    TextureIndex::Layer(l as usize),
                ) == Some(r@[l].1@),
    {
        let n = match self.layers() {
            None => return vec![(None, self.clone())],
            Some(n) => n,
        };
        let mut out: Vec<(Option<usize>, TextureShapeNode)> = Vec::new();
        let mut l: usize = 0;
        while l < n
            invariant
                l <= n,
                self@.wf(),
                self@.layers() == Some(n as nat),
                out@.len() == l,
                forall|j: int| 0 <= j < l ==> (#[trigger] out@[j]).0 == Some(j as usize) && self@.get(
                    TextureIndex::Layer(j as usize),
                ) == Some(out@[j].1@),
            decreases n - l,
        {
            proof {
                lemma_layer_defined(self@, l);
            }
            match self.get(TextureIndex::Layer(l)) {
                Some(t) => out.push((Some(l), t)),
                None => {},
            }
            l += 1;
        }
        out
    }

    /// Each mip level with its index, or `(None, self)` where there is no mipmap.
    pub fn iter_mips(&self) -> (r: Vec<(Option<usize>, TextureShapeNode)>)
        requires
            self@.wf(),
        ensures
            self@.mips() is None ==> r@.len() == 1 && r@[0].0 is None && r@[0].1@ == self@,
            self@.mips() matches Some(n) ==> r@.len() == n && forall|m: int|
                0 <= m < n ==> (#[trigger] r@[m]).0 == Some(m as usize) && self@.get(
                    TextureIndex::Mip(m as usize),
                ) == Some(r@[m].1@),
    {
        let n = match self.mips() {
            None => return vec![(None, self.clone())],
            Some(n) => n,
        };
        let mut out: Vec<(Option<usize>, TextureShapeNode)> = Vec::new();
        let mut m: usize = 0;
        while m < n
            invariant
                m <= n,
                self@.wf(),
                self@.mips() == Some(n as nat),
                out@.len() == m,
                forall|j: int| 0 <= j < m ==> (#[trigger] out@[j]).0 == Some(j as usize) && self@.get(
                    TextureIndex::Mip(j as usize),
                ) == Some(out@[j].1@),
            decreases n - m,
        {
            proof {
                lemma_mip_defined(self@, m);
            }
            match self.get(TextureIndex::Mip(m)) {
                Some(t) => out.push((Some(m), t)),
                None => {},
            }
            m += 1;
        }
        out
    }

    /// Each cubemap face, in stored order, with its part, or `(None, self)`
    /// where there is no cubemap.
    pub fn iter_faces(&self) -> (r: Vec<(Option<CubeFace>, TextureShapeNode)>)
        requires
            self@.wf(),
        ensures
            self@.faces() is None ==> r@.len() == 1 && r@[0].0 is None && r@[0].1@ == self@,
            self@.faces() matches Some(fs) ==> r@.len() == fs.len() && forall|i: int|
                0 <= i < fs.len() ==> (#[trigger] r@[i]).0 == Some(fs[i]) && self@.get(
                    TextureIndex::Face(fs[i]),
                ) == Some(r@[i].1@),
    {
        let fs = match self.faces() {
            None => return vec![(None, self.clone())],
            Some(fs) => fs,
        };
        let mut out: Vec<(Option<CubeFace>, TextureShapeNode)> = Vec::new();
        let mut i: usize = 0;
        while i < fs.len()
            invariant
                i <= fs.len(),
                self@.wf(),
                self@.faces() == Some(fs@),
                out@.len() == i,
                forall|j: int| 0 <= j < i ==> (#[trigger] out@[j]).0 == Some(fs@[j]) && self@.get(
                    TextureIndex::Face(fs@[j]),
                ) == Some(out@[j].1@),
            decreases fs.len() - i,
        {
            proof {
                assert(fs@.contains(fs@[i as int]));
                lemma_face_defined(self@, fs@[i as int]);
            }
            match self.get(TextureIndex::Face(fs[i])) {
                Some(t) => out.push((Some(fs[i]), t)),
                None => {},
            }
            i += 1;
        }
        out
    }
}

/// Where some entry is for face `f`, [`first_entry`] finds the first one.
pub proof fn lemma_first_entry(v: Seq<(CubeFace, ShapeView)>, f: CubeFace, i: int)
    requires
        0 <= i < v.len(),
        v[i].0 == f,
    ensures
        0 <= first_entry(v, f) < v.len(),
        v[first_entry(v, f)].0 == f,
        forall|j: int| 0 <= j < first_entry(v, f) ==> v[j].0 != f,
    decreases i,
{
    if exists|j: int| 0 <= j < i && v[j].0 == f {
        let j = choose|j: int| 0 <= j < i && v[j].0 == f;
        lemma_first_entry(v, f, j);
    } else {
        assert(exists|c: int| 0 <= c < v.len() && v[c].0 == f && forall|j: int| 0 <= j < c ==> v[j].0 != f);
    }
}

/// How a part of a tree compares with the tree, for each kind of index.
pub open spec fn slice_keeps(t: ShapeView, idx: TextureIndex, u: ShapeView) -> bool {
    match idx {
        TextureIndex::Layer(_) => u.dims() == t.dims() && u.mips() == t.mips() && same_faces(
            u.faces(),
            t.faces(),
        ) && u.layers() is None,
        TextureIndex::Mip(m) => u.dims() == t.dims().mip_at(m as nat) && u.mips() is None
            && u.layers() == t.layers() && same_faces(u.faces(), t.faces()),
        TextureIndex::Face(_) => u.dims() == t.dims() && u.mips() == t.mips() && u.layers()
            == t.layers() && u.faces() is None,
    }
}

proof fn lemma_same_faces_equiv(a: Option<Seq<CubeFace>>, b: Option<Seq<CubeFace>>, c: Option<Seq<CubeFace>>)
    ensures
        same_faces(a, a),
        same_faces(a, b) ==> same_faces(b, a),
        same_faces(a, b) && same_faces(b, c) ==> same_faces(a, c),
{
}

/// A part of a well-formed tree is well formed, and keeps the tree's
/// dimensions (or those of its mip level), mips, layers and faces, less the
/// structure it was selected from.
pub proof fn lemma_get_wf(t: ShapeView, idx: TextureIndex)
    requires
        t.wf(),
        t.get(idx) is Some,
    ensures
        t.get(idx)->Some_0.wf(),
        slice_keeps(t, idx, t.get(idx)->Some_0),
    decreases t,
{
    let u = t.get(idx)->Some_0;
    match t {
        ShapeView::Surface(_) => {},
        ShapeView::Array(v) => {
            if let TextureIndex::Layer(l) = idx {
                assert(ShapeView::agree(ShapeAspect::Dimensions, v[l as int], v[0]));
                assert(ShapeView::agree(ShapeAspect::Mips, v[l as int], v[0]));
                assert(ShapeView::agree(ShapeAspect::Faces, v[l as int], v[0]));
                assert(!ShapeView::has(ShapeAspect::Layers, v[l as int]));
            } else {
                let w = u->Array_0;
                assert forall|i: int| 0 <= i < v.len() implies (#[trigger] w[i]).wf() && slice_keeps(v[i], idx, w[i]) by {
                    lemma_get_wf(v[i], idx);
                }
                assert forall|i: int| 0 <= i < w.len() implies ShapeView::agree(ShapeAspect::Dimensions, #[trigger] w[i], w[0])
                    && ShapeView::agree(ShapeAspect::Mips, w[i], w[0])
                    && ShapeView::agree(ShapeAspect::Faces, w[i], w[0])
                    && !ShapeView::has(ShapeAspect::Layers, w[i]) by {
                    assert(ShapeView::agree(ShapeAspect::Dimensions, v[i], v[0]));
                    assert(ShapeView::agree(ShapeAspect::Mips, v[i], v[0]));
                    assert(ShapeView::agree(ShapeAspect::Faces, v[i], v[0]));
                    assert(!ShapeView::has(ShapeAspect::Layers, v[i]));
                    lemma_same_faces_equiv(w[i].faces(), v[i].faces(), v[0].faces());
                    lemma_same_faces_equiv(v[0].faces(), w[0].faces(), w[0].faces());
                    lemma_same_faces_equiv(w[i].faces(), v[0].faces(), w[0].faces());
                    lemma_same_faces_equiv(w[0].faces(), v[0].faces(), w[0].faces());
                }
                assert(ShapeView::array_ok(w));
            }
        },
        ShapeView::MipMap(v) => {
            if let TextureIndex::Mip(m) = idx {
                assert(ShapeView::agree(ShapeAspect::Layers, v[m as int], v[0]));
                assert(ShapeView::agree(ShapeAspect::Faces, v[m as int], v[0]));
                assert(!ShapeView::has(ShapeAspect::Mips, v[m as int]));
            } else {
                let w = u->MipMap_0;
                assert forall|i: int| 0 <= i < v.len() implies (#[trigger] w[i]).wf() && slice_keeps(v[i], idx, w[i]) by {
                    lemma_get_wf(v[i], idx);
                }
                assert forall|i: int| 0 <= i < w.len() implies ShapeView::agree(ShapeAspect::Layers, #[trigger] w[i], w[0])
                    && ShapeView::agree(ShapeAspect::Faces, w[i], w[0])
                    && !ShapeView::has(ShapeAspect::Mips, w[i])
                    && w[i].dims() == w[0].dims().mip_at(i as nat) by {
                    assert(ShapeView::agree(ShapeAspect::Layers, v[i], v[0]));
                    assert(ShapeView::agree(ShapeAspect::Faces, v[i], v[0]));
                    assert(!ShapeView::has(ShapeAspect::Mips, v[i]));
                    assert(v[i].dims() == v[0].dims().mip_at(i as nat));
                    lemma_same_faces_equiv(w[i].faces(), v[i].faces(), v[0].faces());
                    lemma_same_faces_equiv(v[0].faces(), w[0].faces(), w[0].faces());
                    lemma_same_faces_equiv(w[i].faces(), v[0].faces(), w[0].faces());
                    lemma_same_faces_equiv(w[0].faces(), v[0].faces(), w[0].faces());
                }
                assert(ShapeView::mip_chain_ok(w));
                assert(ShapeView::mipmap_ok(w));
            }
        },
        ShapeView::CubeMap(v) => {
            if let TextureIndex::Face(f) = idx {
                let i = choose|i: int| 0 <= i < v.len() && v[i].0 == f;
                lemma_first_entry(v, f, i);
                let c = first_entry(v, f);
                assert(entry_trees(v)[c] == v[c].1);
                assert(ShapeView::agree(ShapeAspect::Dimensions, entry_trees(v)[c], entry_trees(v)[0]));
                assert(ShapeView::agree(ShapeAspect::Mips, entry_trees(v)[c], entry_trees(v)[0]));
                assert(ShapeView::agree(ShapeAspect::Layers, entry_trees(v)[c], entry_trees(v)[0]));
                assert(!ShapeView::has(ShapeAspect::Faces, entry_trees(v)[c]));
            } else {
                let w = u->CubeMap_0;
                assert forall|i: int| 0 <= i < v.len() implies (#[trigger] w[i]).1.wf() && w[i].0 == v[i].0 && slice_keeps(v[i].1, idx, w[i].1) by {
                    lemma_get_wf(v[i].1, idx);
                }
                assert(entry_faces(w) =~= entry_faces(v));
                assert forall|i: int| 0 <= i < w.len() implies ShapeView::agree(ShapeAspect::Dimensions, #[trigger] entry_trees(w)[i], entry_trees(w)[0])
                    && ShapeView::agree(ShapeAspect::Mips, entry_trees(w)[i], entry_trees(w)[0])
                    && ShapeView::agree(ShapeAspect::Layers, entry_trees(w)[i], entry_trees(w)[0])
                    && !ShapeView::has(ShapeAspect::Faces, entry_trees(w)[i]) by {
                    assert(entry_trees(v)[i] == v[i].1);
                    assert(entry_trees(v)[0] == v[0].1);
                    assert(ShapeView::agree(ShapeAspect::Dimensions, entry_trees(v)[i], entry_trees(v)[0]));
                    assert(ShapeView::agree(ShapeAspect::Mips, entry_trees(v)[i], entry_trees(v)[0]));
                    assert(ShapeView::agree(ShapeAspect::Layers, entry_trees(v)[i], entry_trees(v)[0]));
                    assert(!ShapeView::has(ShapeAspect::Faces, entry_trees(v)[i]));
                }
                assert forall|i: int| 0 <= i < w.len() implies (#[trigger] w[i]).1.wf() by {}
                assert(ShapeView::cubemap_ok(w));
                lemma_same_faces_equiv(u.faces(), t.faces(), t.faces());
            }
        },
    }
}

/// The counts of a well-formed tree are positive.
pub proof fn lemma_counts_positive(t: ShapeView)
    requires
        t.wf(),
    ensures
        t.mips() matches Some(n) ==> n > 0,
        t.layers() matches Some(n) ==> n > 0,
        t.faces() matches Some(fs) ==> fs.len() > 0,
    decreases t,
{
    match t {
        ShapeView::Surface(_) => {},
        ShapeView::Array(v) => lemma_counts_positive(v[0]),
        ShapeView::MipMap(v) => lemma_counts_positive(v[0]),
        ShapeView::CubeMap(v) => {
            assert(v[0].1.wf());
            lemma_counts_positive(v[0].1);
        },
    }
}

/// A well-formed tree without mips, layers or faces is a single surface.
pub proof fn lemma_bare_is_surface(t: ShapeView)
    requires
        t.wf(),
        t.mips() is None,
        t.layers() is None,
        t.faces() is None,
    ensures
        t is Surface,
{
}

/// The part of `t` that `idx` selects, or `t` itself for no index.
pub open spec fn key_part(t: ShapeView, idx: Option<TextureIndex>) -> ShapeView {
    match idx {
        Some(i) => t.get(i)->Some_0,
        None => t,
    }
}

/// The primary surface: the first face present in canonical order, then layer 0,
/// then mip 0, each where the texture has that structure.
pub open spec fn primary_part(t: ShapeView) -> ShapeView {
    let t1 = key_part(t, match t.faces() {
        Some(fs) => Some(TextureIndex::Face(canonical_subset(fs, 6)[0])),
        None => None,
    });
    let t2 = key_part(t1, match t1.layers() {
        Some(_) => Some(TextureIndex::Layer(0)),
        None => None,
    });
    key_part(t2, match t2.mips() {
        Some(_) => Some(TextureIndex::Mip(0)),
        None => None,
    })
}

/// The number of surfaces: mip levels times layers times faces, each 1 where absent.
pub open spec fn surface_count(t: ShapeView) -> nat {
    let m: nat = match t.mips() {
        Some(n) => n,
        None => 1,
    };
    let l: nat = match t.layers() {
        Some(n) => n,
        None => 1,
    };
    let f: nat = match t.faces() {
        Some(fs) => fs.len(),
        None => 1,
    };
    m * l * f
}

impl TextureShapeNode {
    /// The number of surfaces in the texture.
    pub fn len(&self) -> (r: usize)
        requires
            surface_count(self@) <= usize::MAX,
        ensures
            r == surface_count(self@),
            self@.wf() ==> r > 0,
    {
        let m: usize = match self.mips() {
            Some(n) => n,
            None => 1,
        };
        let l: usize = match self.layers() {
            Some(n) => n,
            None => 1,
        };
        let f: usize = match self.faces() {
            Some(fs) => fs.len(),
            None => 1,
        };
        proof {
            if self@.wf() {
                lemma_counts_positive(self@);
            }
            assert(m * l <= m * l * f || f == 0) by (nonlinear_arith);
            assert(m * l * f == surface_count(self@));
            if f == 0 {
                assert(m * l * f == 0) by (nonlinear_arith) requires f == 0;
            }
            if self@.wf() {
                assert(m * l * f > 0) by (nonlinear_arith) requires m > 0, l > 0, f > 0;
            }
        }
        if f == 0 {
            0
        } else {
            m * l * f
        }
    }

    /// The primary surface (see [`primary_part`]).
    pub fn primary(&self) -> (r: Surface)
        requires
            self@.wf(),
        ensures
            ShapeView::Surface(r@) == primary_part(self@),
    {
        proof {
            lemma_counts_positive(self@);
        }
        let t1 = match self.faces() {
            Some(fs) => {
                let order = cubemap_order_of(&fs);
                proof {
                    lemma_canonical_subset_contains(fs@, 6, fs@[0]);
                    assert(fs@.contains(fs@[0]));
                    assert(order@.len() > 0);
                    lemma_canonical_subset_contains(fs@, 6, order@[0]);
                    assert(canonical_subset(fs@, 6).contains(order@[0]));
                    lemma_face_defined(self@, order@[0]);
                    lemma_get_wf(self@, TextureIndex::Face(order@[0]));
                }
                match self.get(TextureIndex::Face(order[0])) {
                    Some(t) => t,
                    None => self.clone(),
                }
            },
            None => self.clone(),
        };
        proof {
            lemma_counts_positive(t1@);
        }
        let t2 = match t1.layers() {
            Some(_) => {
                proof {
                    lemma_layer_defined(t1@, 0);
                    lemma_get_wf(t1@, TextureIndex::Layer(0));
                }
                match t1.get(TextureIndex::Layer(0)) {
                    Some(t) => t,
                    None => t1,
                }
            },
            None => t1,
        };
        proof {
            lemma_counts_positive(t2@);
        }
        let t3 = match t2.mips() {
            Some(_) => {
                proof {
                    lemma_mip_defined(t2@, 0);
                    lemma_get_wf(t2@, TextureIndex::Mip(0));
                }
                match t2.get(TextureIndex::Mip(0)) {
                    Some(t) => t,
                    None => t2,
                }
            },
            None => t2,
        };
        proof {
            lemma_bare_is_surface(t3@);
        }
        match t3 {
            TextureShapeNode::Surface(s) => s,
            _ => {
                proof {
                    assert(false);
                }
                Surface::new(Dimensions::_1D(1), Vec::new())
            },
        }
    }
}

/// One surface of a texture with the layer, face and mip level it stands at.
#[derive(Debug)]
pub struct TextureIterResult {
    pub layer: Option<usize>,
    pub face: Option<CubeFace>,
    pub mip: Option<usize>,
    pub surface: Surface,
}

/// What a [`TextureIterResult`] holds, as mathematical values.
pub type IterEntry = (Option<usize>, Option<CubeFace>, Option<usize>, SurfaceView);

impl View for TextureIterResult {
    type V = IterEntry;

    open spec fn view(&self) -> IterEntry {
        (self.layer, self.face, self.mip, self.surface@)
    }
}

/// The sequences one after another.
pub open spec fn concat_all(parts: Seq<Seq<IterEntry>>) -> Seq<IterEntry>
    decreases parts.len(),
{
    if parts.len() == 0 {
        Seq::empty()
    } else {
        concat_all(parts.drop_last()) + parts.last()
    }
}

/// The key that selects the `i`-th part of a structure that has `n` parts, or none without it.
pub open spec fn count_key(n: Option<nat>, i: int) -> Option<usize> {
    match n {
        Some(_) => Some(i as usize),
        None => None,
    }
}

/// How many parts a structure of count `n` splits into: `n`, or 1 without it.
pub open spec fn or_one(n: Option<nat>) -> nat {
    match n {
        Some(k) => k,
        None => 1,
    }
}

/// The surface of a part that is one.
pub open spec fn surface_of(t: ShapeView) -> SurfaceView {
    t->Surface_0
}

/// The entries of the layers of `t`, which stands at face `f` and mip `m`.
pub open spec fn layer_entries(t: ShapeView, f: Option<CubeFace>, m: Option<usize>) -> Seq<IterEntry> {
    Seq::new(
        or_one(t.layers()),
        |l: int|
            (
                count_key(t.layers(), l),
                f,
                m,
                surface_of(key_part(t, match t.layers() {
                    Some(_) => Some(TextureIndex::Layer(l as usize)),
                    None => None,
                })),
            ),
    )
}

/// The face keys of `t`: its faces in stored order, or one `None`.
pub open spec fn face_keys(t: ShapeView) -> Seq<Option<CubeFace>> {
    match t.faces() {
        Some(fs) => Seq::new(fs.len(), |i: int| Some(fs[i])),
        None => seq![None],
    }
}

/// The entries of the faces of `t`, which stands at mip `m`, each face's layers in turn.
pub open spec fn face_entries(t: ShapeView, m: Option<usize>) -> Seq<IterEntry> {
    concat_all(
        Seq::new(
            face_keys(t).len(),
            |i: int|
                layer_entries(
                    key_part(t, match face_keys(t)[i] {
                        Some(f) => Some(TextureIndex::Face(f)),
                        None => None,
                    }),
                    face_keys(t)[i],
                    m,
                ),
        ),
    )
}

/// Every surface of `t` with its keys: for each mip level, for each face in
/// stored order, for each layer.
pub open spec fn iter_entries(t: ShapeView) -> Seq<IterEntry> {
    concat_all(
        Seq::new(
            or_one(t.mips()),
            |m: int|
                face_entries(
                    key_part(t, match t.mips() {
                        Some(_) => Some(TextureIndex::Mip(m as usize)),
                        None => None,
                    }),
                    count_key(t.mips(), m),
                ),
        ),
    )
}

proof fn lemma_concat_all_step(parts: Seq<Seq<IterEntry>>, i: int)
    requires
        0 <= i < parts.len(),
    ensures
        concat_all(parts.take(i + 1)) == concat_all(parts.take(i)) + parts[i],
{
    assert(parts.take(i + 1).drop_last() =~= parts.take(i));
}

/// The views of a sequence of entries.
pub open spec fn entry_views_of(r: Seq<TextureIterResult>) -> Seq<IterEntry> {
    Seq::new(r.len(), |i: int| r[i]@)
}

fn append_entries(out: &mut Vec<TextureIterResult>, more: Vec<TextureIterResult>)
    ensures
        entry_views_of(final(out)@) == entry_views_of(old(out)@) + entry_views_of(more@),
{
    let ghost before = out@;
    let ghost added = more@;
    move_entries(out, more);
    assert forall|i: int| 0 <= i < out@.len() implies entry_views_of(out@)[i] == (entry_views_of(before) + entry_views_of(added))[i] by {
        if i >= before.len() {
            let j = i - before.len();
            assert(out@[before.len() + j] == added[j]);
        } else {
            assert(out@[i] == before[i]);
        }
    }
    assert(entry_views_of(out@) =~= entry_views_of(before) + entry_views_of(added));
}

fn move_entries(out: &mut Vec<TextureIterResult>, more: Vec<TextureIterResult>)
    ensures
        final(out)@.len() == old(out)@.len() + more@.len(),
        forall|i: int| 0 <= i < old(out)@.len() ==> (#[trigger] final(out)@[i]) == old(out)@[i],
        forall|i: int| 0 <= i < more@.len() ==> (#[trigger] final(out)@[old(out)@.len() + i]) == more@[i],
{
    let mut more = more;
    let ghost orig = more@;
    let mut taken: Vec<TextureIterResult> = Vec::new();
    while more.len() > 0
        invariant
            taken@.len() + more@.len() == orig.len(),
            forall|i: int| 0 <= i < more@.len() ==> #[trigger] more@[i] == orig[i],
            forall|i: int| 0 <= i < taken@.len() ==> #[trigger] taken@[i] == orig[orig.len() - 1 - i],
        decreases more.len(),
    {
        let e = more.pop().unwrap();
        taken.push(e);
    }
    let ghost start = out@.len();
    let ghost before = out@;
    while taken.len() > 0
        invariant
            taken@.len() <= orig.len(),
            out@.len() == start + orig.len() - taken@.len(),
            start == old(out)@.len(),
            before == old(out)@,
            forall|i: int| 0 <= i < start ==> (#[trigger] out@[i]) == before[i],
            forall|i: int| 0 <= i < taken@.len() ==> #[trigger] taken@[i] == orig[orig.len() - 1 - i],
            forall|i: int| 0 <= i < orig.len() - taken@.len() ==> (#[trigger] out@[start + i]) == orig[i],
        decreases taken.len(),
    {
        let e = taken.pop().unwrap();
        out.push(e);
    }
}

impl TextureShapeNode {
    fn layer_entries_of(t: &TextureShapeNode, f: Option<CubeFace>, m: Option<usize>) -> (r: Vec<TextureIterResult>)
        requires
            t@.wf(),
            t@.mips() is None,
            t@.faces() is None,
        ensures
            entry_views_of(r@) == layer_entries(t@, f, m),
    {
        let parts = t.iter_layers();
        let ghost target = layer_entries(t@, f, m);
        let mut out: Vec<TextureIterResult> = Vec::new();
        let mut i: usize = 0;
        while i < parts.len()
            invariant
                i <= parts@.len(),
                t@.wf(),
                t@.mips() is None,
                t@.faces() is None,
                parts@.len() == target.len(),
                target == layer_entries(t@, f, m),
                t@.layers() is None ==> parts@.len() == 1 && parts@[0].0 is None && parts@[0].1@ == t@,
                t@.layers() matches Some(n) ==> parts@.len() == n && forall|l: int|
                    0 <= l < n ==> (#[trigger] parts@[l]).0 == Some(l as usize) && t@.get(
                        TextureIndex::Layer(l as usize),
                    ) == Some(parts@[l].1@),
                entry_views_of(out@) == target.take(i as int),
            decreases parts.len() - i,
        {
            let part = parts[i].1.clone();
            let ghost u = part@;
            proof {
                if t@.layers() is Some {
                    lemma_get_wf(t@, TextureIndex::Layer(i));
                }
                lemma_same_faces_equiv(u.faces(), t@.faces(), t@.faces());
                lemma_bare_is_surface(u);
            }
            let surface = match part.try_into_surface() {
                Some(s) => s,
                None => {
                    proof {
                        assert(false);
                    }
                    Surface::new(Dimensions::_1D(1), Vec::new())
                },
            };
            let ghost before = out@;
            let entry = TextureIterResult { layer: parts[i].0, face: f, mip: m, surface };
            assert(u == ShapeView::Surface(surface@));
            assert(((i as int) as usize) == i);
            assert(entry@ == target[i as int]);
            out.push(entry);
            assert(entry_views_of(out@) =~= entry_views_of(before).push(entry@));
            assert(target.take(i + 1) =~= target.take(i as int).push(target[i as int]));
            i += 1;
        }
        assert(target.take(parts@.len() as int) =~= target);
        out
    }

    fn face_entries_of(t: &TextureShapeNode, m: Option<usize>) -> (r: Vec<TextureIterResult>)
        requires
            t@.wf(),
            t@.mips() is None,
        ensures
            entry_views_of(r@) == face_entries(t@, m),
    {
        let parts = t.iter_faces();
        let ghost blocks = Seq::new(
            face_keys(t@).len(),
            |i: int|
                layer_entries(
                    key_part(t@, match face_keys(t@)[i] {
                        Some(f) => Some(TextureIndex::Face(f)),
                        None => None,
                    }),
                    face_keys(t@)[i],
                    m,
                ),
        );
        let mut out: Vec<TextureIterResult> = Vec::new();
        let mut i: usize = 0;
        assert(blocks.take(0) =~= Seq::<Seq<IterEntry>>::empty());
        while i < parts.len()
            invariant
                i <= parts@.len(),
                t@.wf(),
                t@.mips() is None,
                parts@.len() == blocks.len(),
                blocks == Seq::new(
                    face_keys(t@).len(),
                    |i: int|
                        layer_entries(
                            key_part(t@, match face_keys(t@)[i] {
                                Some(f) => Some(TextureIndex::Face(f)),
                                None => None,
                            }),
                            face_keys(t@)[i],
                            m,
                        ),
                ),
                t@.faces() is None ==> parts@.len() == 1 && parts@[0].0 is None && parts@[0].1@ == t@,
                t@.faces() matches Some(fs) ==> parts@.len() == fs.len() && forall|k: int|
                    0 <= k < fs.len() ==> (#[trigger] parts@[k]).0 == Some(fs[k]) && t@.get(
                        TextureIndex::Face(fs[k]),
                    ) == Some(parts@[k].1@),
                entry_views_of(out@) == concat_all(blocks.take(i as int)),
            decreases parts.len() - i,
        {
            let part = &parts[i].1;
            proof {
                if let Some(fs) = t@.faces() {
                    lemma_get_wf(t@, TextureIndex::Face(fs[i as int]));
                }
                lemma_concat_all_step(blocks, i as int);
            }
            let more = Self::layer_entries_of(part, parts[i].0, m);
            append_entries(&mut out, more);
            i += 1;
        }
        assert(blocks.take(parts@.len() as int) =~= blocks);
        out
    }

    /// Every surface of the texture with the layer, face and mip level it
    /// stands at (`None` where the texture lacks that structure): for each mip
    /// level, for each face in stored order, for each layer.
    pub fn iter(&self) -> (r: Vec<TextureIterResult>)
        requires
            self@.wf(),
        ensures
            entry_views_of(r@) == iter_entries(self@),
    {
        let parts = self.iter_mips();
        let ghost blocks = Seq::new(
            or_one(self@.mips()),
            |m: int|
                face_entries(
                    key_part(self@, match self@.mips() {
                        Some(_) => Some(TextureIndex::Mip(m as usize)),
                        None => None,
                    }),
                    count_key(self@.mips(), m),
                ),
        );
        let mut out: Vec<TextureIterResult> = Vec::new();
        let mut i: usize = 0;
        assert(blocks.take(0) =~= Seq::<Seq<IterEntry>>::empty());
        while i < parts.len()
            invariant
                i <= parts@.len(),
                self@.wf(),
                parts@.len() == blocks.len(),
                blocks == Seq::new(
                    or_one(self@.mips()),
                    |m: int|
                        face_entries(
                            key_part(self@, match self@.mips() {
                                Some(_) => Some(TextureIndex::Mip(m as usize)),
                                None => None,
                            }),
                            count_key(self@.mips(), m),
                        ),
                ),
                self@.mips() is None ==> parts@.len() == 1 && parts@[0].0 is None && parts@[0].1@ == self@,
                self@.mips() matches Some(n) ==> parts@.len() == n && forall|k: int|
                    0 <= k < n ==> (#[trigger] parts@[k]).0 == Some(k as usize) && self@.get(
                        TextureIndex::Mip(k as usize),
                    ) == Some(parts@[k].1@),
                entry_views_of(out@) == concat_all(blocks.take(i as int)),
            decreases parts.len() - i,
        {
            let part = &parts[i].1;
            proof {
                if self@.mips() is Some {
                    lemma_get_wf(self@, TextureIndex::Mip(i));
                }
                lemma_concat_all_step(blocks, i as int);
            }
            let more = Self::face_entries_of(part, parts[i].0);
            append_entries(&mut out, more);
            i += 1;
        }
        assert(blocks.take(parts@.len() as int) =~= blocks);
        out
    }
}

/// The dimensions of a well-formed tree are well formed.
pub proof fn lemma_wf_dims(t: ShapeView)
    requires
        t.wf(),
    ensures
        t.dims().wf(),
    decreases t,
{
    match t {
        ShapeView::Surface(_) => {},
        ShapeView::Array(v) => lemma_wf_dims(v[0]),
        ShapeView::MipMap(v) => lemma_wf_dims(v[0]),
        ShapeView::CubeMap(v) => lemma_wf_dims(v[0].1),
    }
}

impl Clone for TextureShapeNode {
    /// A copy of the tree; the surfaces' bytes are shared, not copied.
    fn clone(&self) -> (r: TextureShapeNode)
        ensures
            r@ == self@,
    {
        self.duplicate()
    }
}

impl TextureShapeNode {
    fn duplicate_all(v: &Vec<TextureShapeNode>) -> (r: Vec<TextureShapeNode>)
        ensures
            node_views(r@) == node_views(v@),
        decreases v, 0nat,
    {
        let mut out: Vec<TextureShapeNode> = Vec::new();
        let mut i: usize = 0;
        while i < v.len()
            invariant
                i <= v.len(),
                out@.len() == i,
                forall|j: int| 0 <= j < i ==> (#[trigger] out@[j])@ == v@[j]@,
            decreases v.len() - i,
        {
            proof {
                assert(decreases_to!(v => v@[i as int]));
            }
            out.push(v[i].duplicate());
            i += 1;
        }
        assert(node_views(out@) =~= node_views(v@));
        out
    }

    fn duplicate_entries(v: &Vec<(CubeFace, TextureShapeNode)>) -> (r: Vec<
        (CubeFace, TextureShapeNode),
    >)
        ensures
            entry_views(r@) == entry_views(v@),
        decreases v, 0nat,
    {
        let mut out: Vec<(CubeFace, TextureShapeNode)> = Vec::new();
        let mut i: usize = 0;
        while i < v.len()
            invariant
                i <= v.len(),
                out@.len() == i,
                forall|j: int|
                    0 <= j < i ==> (#[trigger] out@[j]).0 == v@[j].0 && out@[j].1@ == v@[j].1@,
            decreases v.len() - i,
        {
            proof {
                assert(decreases_to!(v => v@[i as int]));
                assert(decreases_to!(v@[i as int] => v@[i as int].1));
            }
            out.push((v[i].0, v[i].1.duplicate()));
            i += 1;
        }
        assert(entry_views(out@) =~= entry_views(v@));
        out
    }

    fn duplicate(&self) -> (r: TextureShapeNode)
        ensures
            r@ == self@,
        decreases self, 1nat,
    {
        proof {
            self.lemma_view();
        }
        let r = match self {
            TextureShapeNode::Array(v) => TextureShapeNode::Array(Self::duplicate_all(v)),
            TextureShapeNode::MipMap(v) => TextureShapeNode::MipMap(Self::duplicate_all(v)),
            TextureShapeNode::CubeMap(v) => TextureShapeNode::CubeMap(Self::duplicate_entries(v)),
            TextureShapeNode::Surface(s) => TextureShapeNode::Surface(s.clone()),
        };
        proof {
            r.lemma_view();
        }
        r
    }
}

} // verus!
