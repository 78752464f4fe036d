//! One-, two- and three-dimensional sizes, the mip chain they start, and
//! rounding up to whole blocks.

use vstd::prelude::*;

verus! {

/// Why a list of sizes does not make a [`Dimensions`].
#[derive(Debug, Clone, Copy, PartialEq, Eq)]
pub enum DimensionError {
    /// Only one, two or three sizes make a dimension; holds the count that was given.
    Dimensionality(usize),
    /// The named axis (`"width"`, `"height"` or `"depth"`) was zero.
    Invalid(&'static str),
}

/// The size of a surface: width, width × height, or width × height × depth.
///
/// Every axis of a well-formed value is at least 1 (see [`Dimensions::wf`]).
#[allow(non_camel_case_types)]
#[derive(Debug, Clone, Copy, PartialEq, Eq, Structural)]
pub enum Dimensions {
    _1D(u32),
    _2D(u32, u32),
    _3D(u32, u32, u32),
}

/// `⌈a / b⌉` for a positive divisor.
pub open spec fn ceil_div(a: nat, b: nat) -> nat
    recommends
        b > 0,
{
    ((a + b - 1) as nat) / b
}

/// One halving step of a mip chain on one axis: the floor of half, but never below 1.
pub open spec fn halve_axis(x: u32) -> u32 {
    if x / 2 >= 1 {
        (x / 2) as u32
    } else {
        1
    }
}

fn halve_axis_exec(x: u32) -> (r: u32)
    ensures
        r == halve_axis(x),
{
    if x / 2 >= 1 {
        x / 2
    } else {
        1
    }
}

/// `⌈a / b⌉` for `a, b ≥ 1`, free of overflow.
fn ceil_div_exec(a: u32, b: u32) -> (r: u32)
    requires
        a >= 1,
        b >= 1,
    ensures
        r as nat == ceil_div(a as nat, b as nat),
        r >= 1,
{
    let q = (a - 1) / b;
    assert(q + 1 == ((a + b - 1) as nat) / (b as nat)) by (nonlinear_arith)
        requires
            a >= 1,
            b >= 1,
            q as int == (a as int - 1) / (b as int),
    ;
    assert(q < a) by (nonlinear_arith)
        requires
            a >= 1,
            b >= 1,
            q as int == (a as int - 1) / (b as int),
    ;
    q + 1
}

/// `⌊log2 x⌋`, with 0 for 0 and 1.
pub open spec fn floor_log2(x: nat) -> nat
    decreases x,
{
    if x <= 1 {
        0
    } else {
        1 + floor_log2(x / 2)
    }
}

/// `⌈log2 x⌉`, with 0 for 0 and 1.
pub open spec fn ceil_log2(x: nat) -> nat
    decreases x,
{
    if x <= 1 {
        0
    } else {
        1 + ceil_log2(((x + 1) / 2) as nat)
    }
}

pub open spec fn max3(a: nat, b: nat, c: nat) -> nat {
    if a >= b && a >= c {
        a
    } else if b >= c {
        b
    } else {
        c
    }
}

impl Dimensions {
    /// The sizes along each axis that the value has, in the order width, height, depth.
    pub open spec fn axes(self) -> Seq<u32> {
        match self {
            Dimensions::_1D(w) => seq![w],
            Dimensions::_2D(w, h) => seq![w, h],
            Dimensions::_3D(w, h, d) => seq![w, h, d],
        }
    }

    /// Every axis is at least 1.
    pub open spec fn wf(self) -> bool {
        forall|i: int| 0 <= i < self.axes().len() ==> #[trigger] self.axes()[i] >= 1
    }

    /// The size along axis `i`, or 1 where the value has no such axis.
    pub open spec fn axis_or_one(self, i: int) -> u32 {
        if 0 <= i < self.axes().len() {
            self.axes()[i]
        } else {
            1
        }
    }

    pub open spec fn spec_width(self) -> u32 {
        self.axis_or_one(0)
    }

    pub open spec fn spec_height(self) -> u32 {
        self.axis_or_one(1)
    }

    pub open spec fn spec_depth(self) -> u32 {
        self.axis_or_one(2)
    }

    /// width · height · depth
    pub open spec fn spec_product(self) -> nat {
        (self.spec_width() * self.spec_height() * self.spec_depth()) as nat
    }

    /// Every axis equals 1: the last element of a mip chain.
    pub open spec fn is_unit(self) -> bool {
        self.spec_width() <= 1 && self.spec_height() <= 1 && self.spec_depth() <= 1
    }

    /// The next smaller mip: every axis halved (floor), never below 1.
    pub open spec fn halved(self) -> Dimensions {
        match self {
            Dimensions::_1D(w) => Dimensions::_1D(halve_axis(w)),
            Dimensions::_2D(w, h) => Dimensions::_2D(halve_axis(w), halve_axis(h)),
            Dimensions::_3D(w, h, d) => Dimensions::_3D(halve_axis(w), halve_axis(h), halve_axis(d)),
        }
    }

    /// The `k`-th element of the mip chain that starts at `self` (`k` halvings).
    pub open spec fn mip_at(self, k: nat) -> Dimensions
        decreases k,
    {
        if k == 0 {
            self
        } else {
            self.halved().mip_at((k - 1) as nat)
        }
    }

    /// How many elements the mip chain from `self` has, the all-ones element included.
    pub open spec fn mip_count(self) -> nat {
        1 + max3(
            floor_log2(self.spec_width() as nat),
            floor_log2(self.spec_height() as nat),
            floor_log2(self.spec_depth() as nat),
        )
    }

    /// The whole mip chain from `self`, largest first.
    pub open spec fn mip_chain(self) -> Seq<Dimensions> {
        Seq::new(self.mip_count(), |k: int| self.mip_at(k as nat))
    }

    /// The element-wise `⌈self / block⌉`, over as many axes as the longer of the two has.
    pub open spec fn spec_blocks(self, block: Dimensions) -> Seq<nat> {
        let n = if self.axes().len() >= block.axes().len() {
            self.axes().len()
        } else {
            block.axes().len()
        };
        Seq::new(
            n,
            |i: int| ceil_div(self.axis_or_one(i) as nat, block.axis_or_one(i) as nat),
        )
    }

    /// The dimension built from a list of one to three sizes.
    pub open spec fn from_axes(v: Seq<u32>) -> Dimensions
        recommends
            1 <= v.len() <= 3,
    {
        if v.len() == 1 {
            Dimensions::_1D(v[0])
        } else if v.len() == 2 {
            Dimensions::_2D(v[0], v[1])
        } else {
            Dimensions::_3D(v[0], v[1], v[2])
        }
    }

    /// The width, height and depth of a well-formed value are all at least 1.
    pub proof fn lemma_axes_positive(self)
        requires
            self.wf(),
        ensures
            self.spec_width() >= 1,
            self.spec_height() >= 1,
            self.spec_depth() >= 1,
    {
        assert(self.axes().len() >= 1 ==> self.axes()[0] >= 1);
        assert(self.axes().len() >= 2 ==> self.axes()[1] >= 1);
        assert(self.axes().len() >= 3 ==> self.axes()[2] >= 1);
    }

    /// The outcome of building a dimension from `v`: the count must be one to
    /// three, and then the first zero size, if any, is named.
    pub open spec fn spec_try_from(v: Seq<u32>) -> Result<Dimensions, DimensionError> {
        if v.len() < 1 || v.len() > 3 {
            Err(DimensionError::Dimensionality(v.len() as usize))
        } else if v[0] == 0 {
            Err(DimensionError::Invalid("width"))
        } else if v.len() >= 2 && v[1] == 0 {
            Err(DimensionError::Invalid("height"))
        } else if v.len() == 3 && v[2] == 0 {
            Err(DimensionError::Invalid("depth"))
        } else {
            Ok(Dimensions::from_axes(v))
        }
    }

    /// Builds a dimension from one, two or three positive sizes.
    pub fn try_from_slice(value: &[u32]) -> (r: Result<Dimensions, DimensionError>)
        ensures
            r == Self::spec_try_from(value@),
            (value@.len() < 1 || value@.len() > 3) ==> r == Err::<Dimensions, DimensionError>(
                DimensionError::Dimensionality(value@.len() as usize),
            ),
            1 <= value@.len() <= 3 ==> {
                &&& (forall|i: int| 0 <= i < value@.len() ==> value@[i] >= 1) ==> r == Ok::<
                    Dimensions,
                    DimensionError,
                >(Dimensions::from_axes(value@))
                &&& value@[0] == 0 ==> r == Err::<Dimensions, DimensionError>(
                    DimensionError::Invalid("width"),
                )
                &&& value@.len() >= 2 && value@[0] >= 1 && value@[1] == 0 ==> r == Err::<
                    Dimensions,
                    DimensionError,
                >(DimensionError::Invalid("height"))
                &&& value@.len() == 3 && value@[0] >= 1 && value@[1] >= 1 && value@[2] == 0
                    ==> r == Err::<Dimensions, DimensionError>(DimensionError::Invalid("depth"))
            },
            r matches Ok(d) ==> d.wf(),
    {
        let n = value.len();
        if n < 1 || n > 3 {
            return Err(DimensionError::Dimensionality(n));
        }
        if value[0] == 0 {
            return Err(DimensionError::Invalid("width"));
        }
        if n >= 2 && value[1] == 0 {
            return Err(DimensionError::Invalid("height"));
        }
        if n == 3 && value[2] == 0 {
            return Err(DimensionError::Invalid("depth"));
        }
        if n == 1 {
            Ok(Dimensions::_1D(value[0]))
        } else if n == 2 {
            Ok(Dimensions::_2D(value[0], value[1]))
        } else {
            Ok(Dimensions::_3D(value[0], value[1], value[2]))
        }
    }

    /// The number of axes: 1, 2 or 3.
    pub fn len(self) -> (r: usize)
        ensures
            r as nat == self.axes().len(),
    {
        match self {
            Dimensions::_1D(_) => 1,
            Dimensions::_2D(_, _) => 2,
            Dimensions::_3D(_, _, _) => 3,
        }
    }

    pub fn width(self) -> (r: u32)
        ensures
            r == self.spec_width(),
    {
        match self {
            Dimensions::_1D(w) => w,
            Dimensions::_2D(w, _) => w,
            Dimensions::_3D(w, _, _) => w,
        }
    }

    /// The height, or 1 for a one-dimensional value.
    pub fn height(self) -> (r: u32)
        ensures
            r == self.spec_height(),
    {
        match self {
            Dimensions::_1D(_) => 1,
            Dimensions::_2D(_, h) => h,
            Dimensions::_3D(_, h, _) => h,
        }
    }

    /// The depth, or 1 for a value of one or two dimensions.
    pub fn depth(self) -> (r: u32)
        ensures
            r == self.spec_depth(),
    {
        match self {
            Dimensions::_3D(_, _, d) => d,
            _ => 1,
        }
    }

    /// Every axis equals 1.
    pub fn is_all_ones(self) -> (r: bool)
        ensures
            r == self.is_unit(),
    {
        self.width() <= 1 && self.height() <= 1 && self.depth() <= 1
    }

    /// The next smaller mip level.
    pub fn halved_exec(self) -> (r: Dimensions)
        ensures
            r == self.halved(),
    {
        match self {
            Dimensions::_1D(w) => Dimensions::_1D(halve_axis_exec(w)),
            Dimensions::_2D(w, h) => Dimensions::_2D(halve_axis_exec(w), halve_axis_exec(h)),
            Dimensions::_3D(w, h, d) => Dimensions::_3D(
                halve_axis_exec(w),
                halve_axis_exec(h),
                halve_axis_exec(d),
            ),
        }
    }

    /// The mip chain that starts at `self`, ending with the all-ones element.
    pub fn mips(self) -> (r: MipDimensionIterator)
        requires
            self.wf(),
        ensures
            r.wf(),
            r.remaining() == self.mip_chain(),
    {
        MipDimensionIterator { current: Some(self) }
    }

    /// The size along axis `i`, or 1 where there is no such axis.
    fn axis_or_one_exec(self, i: usize) -> (r: u32)
        ensures
            r == self.axis_or_one(i as int),
    {
        match self {
            Dimensions::_1D(w) => if i == 0 {
                w
            } else {
                1
            },
            Dimensions::_2D(w, h) => if i == 0 {
                w
            } else if i == 1 {
                h
            } else {
                1
            },
            Dimensions::_3D(w, h, d) => if i == 0 {
                w
            } else if i == 1 {
                h
            } else if i == 2 {
                d
            } else {
                1
            },
        }
    }

    /// Rounds `self` up to whole blocks of size `block`: on each axis the
    /// ceiling of the quotient, an axis that `block` lacks counting as 1.
    pub fn blocks(self, block: Dimensions) -> (r: Dimensions)
        requires
            self.wf(),
            block.wf(),
        ensures
            r.wf(),
            r.axes().len() == self.spec_blocks(block).len(),
            forall|i: int|
                0 <= i < r.axes().len() ==> #[trigger] r.axes()[i] as nat == self.spec_blocks(
                    block,
                )[i],
    {
        let n = if self.len() >= block.len() {
            self.len()
        } else {
            block.len()
        };
        let w = ceil_div_exec(self.axis_or_one_exec(0), block.axis_or_one_exec(0));
        let h = ceil_div_exec(self.axis_or_one_exec(1), block.axis_or_one_exec(1));
        let d = ceil_div_exec(self.axis_or_one_exec(2), block.axis_or_one_exec(2));
        let r = if n == 1 {
            Dimensions::_1D(w)
        } else if n == 2 {
            Dimensions::_2D(w, h)
        } else {
            Dimensions::_3D(w, h, d)
        };
        assert(r.axes().len() == self.spec_blocks(block).len());
        r
    }

    /// width · height · depth
    pub fn product(self) -> (r: u32)
        requires
            self.wf(),
            self.spec_product() <= u32::MAX,
        ensures
            r as nat == self.spec_product(),
    {
        let w = self.width();
        let h = self.height();
        let d = self.depth();
        proof {
            self.lemma_axes_positive();
        }
        assert(w * h <= w * h * d) by (nonlinear_arith)
            requires
                d >= 1,
                w * h >= 0,
        ;
        w * h * d
    }
}

/// Walks the mip chain of a size, largest first.
pub struct MipDimensionIterator {
    current: Option<Dimensions>,
}

impl MipDimensionIterator {
    /// The elements still to come.
    pub closed spec fn remaining(self) -> Seq<Dimensions> {
        match self.current {
            Some(d) => d.mip_chain(),
            None => Seq::empty(),
        }
    }

    pub closed spec fn wf(self) -> bool {
        self.current matches Some(d) ==> d.wf()
    }

    /// The next element of the chain, or `None` once the all-ones element has been handed out.
    pub fn next(&mut self) -> (r: Option<Dimensions>)
        requires
            old(self).wf(),
        ensures
            final(self).wf(),
            old(self).remaining().len() == 0 ==> r is None && final(self).remaining()
                == old(self).remaining(),
            old(self).remaining().len() > 0 ==> r == Some(old(self).remaining()[0])
                && final(self).remaining() == old(self).remaining().drop_first(),
            r matches Some(d) ==> d.wf(),
    {
        match self.current {
            None => None,
            Some(d) => {
                proof {
                    d.lemma_mip_chain_step();
                    d.lemma_halved();
                }
                if d.is_all_ones() {
                    self.current = None;
                    assert(d.mip_chain().drop_first() =~= Seq::<Dimensions>::empty());
                } else {
                    self.current = Some(d.halved_exec());
                }
                Some(d)
            }
        }
    }
}

/// `⌊log2⌋` of a size is at most `⌈log2⌉` of any larger size.
pub proof fn lemma_floor_log2_le_ceil_log2(a: nat, b: nat)
    requires
        a <= b,
    ensures
        floor_log2(a) <= ceil_log2(b),
    decreases b,
{
    if a > 1 {
        lemma_floor_log2_le_ceil_log2(a / 2, ((b + 1) / 2) as nat);
    }
}

impl Dimensions {
    /// Halving keeps a value well formed and its number of axes, and one step
    /// along the chain is the chain of the halved value.
    pub proof fn lemma_halved(self)
        requires
            self.wf(),
        ensures
            self.halved().wf(),
            self.halved().axes().len() == self.axes().len(),
            forall|i: int|
                0 <= i < self.axes().len() ==> #[trigger] self.halved().axes()[i] == halve_axis(
                    self.axes()[i],
                ),
            self.is_unit() ==> self.halved() == self,
            self.is_unit() ==> self.mip_count() == 1,
            !self.is_unit() ==> self.mip_count() == 1 + self.halved().mip_count(),
            !self.is_unit() ==> self.halved().spec_product() < self.spec_product(),
    {
        self.lemma_axes_positive();
        let w = self.spec_width();
        let h = self.spec_height();
        let d = self.spec_depth();
        let hd = self.halved();
        assert(hd.spec_width() == halve_axis(w));
        assert(hd.spec_height() == halve_axis(h));
        assert(hd.spec_depth() == halve_axis(d));
        assert(hd.wf()) by {
            assert(forall|i: int| 0 <= i < hd.axes().len() ==> #[trigger] hd.axes()[i] >= 1);
        }
        let (w2, h2, d2) = (hd.spec_width(), hd.spec_height(), hd.spec_depth());
        assert(w2 <= w && h2 <= h && d2 <= d);
        assert(w > 1 ==> w2 < w);
        assert(h > 1 ==> h2 < h);
        assert(d > 1 ==> d2 < d);
        if !self.is_unit() {
            assert(w2 * h2 * d2 < w * h * d) by (nonlinear_arith)
                requires
                    1 <= w2 <= w,
                    1 <= h2 <= h,
                    1 <= d2 <= d,
                    w2 < w || h2 < h || d2 < d,
            ;
        }
        assert(floor_log2(w as nat) == 0 <==> w <= 1);
        assert(floor_log2(h as nat) == 0 <==> h <= 1);
        assert(floor_log2(d as nat) == 0 <==> d <= 1);
        assert(w > 1 ==> floor_log2(w as nat) == 1 + floor_log2(w2 as nat));
        assert(h > 1 ==> floor_log2(h as nat) == 1 + floor_log2(h2 as nat));
        assert(d > 1 ==> floor_log2(d as nat) == 1 + floor_log2(d2 as nat));
    }

    /// The chain of a value is the value followed by the chain of the halved
    /// value, or the value alone once every axis is 1.
    pub proof fn lemma_mip_chain_step(self)
        requires
            self.wf(),
        ensures
            self.mip_chain().len() >= 1,
            self.mip_chain()[0] == self,
            self.is_unit() ==> self.mip_chain() == seq![self],
            !self.is_unit() ==> self.mip_chain().drop_first() == self.halved().mip_chain(),
    {
        self.lemma_halved();
        if self.is_unit() {
            assert(self.mip_chain() =~= seq![self]);
        } else {
            assert forall|k: int| 0 <= k < self.halved().mip_count() implies #[trigger]
                self.mip_chain().drop_first()[k] == self.halved().mip_chain()[k] by {
                assert(self.mip_at((k + 1) as nat) == self.halved().mip_at(k as nat));
            }
            assert(self.mip_chain().drop_first() =~= self.halved().mip_chain());
        }
    }

    /// Every element of the chain is well formed, has as many axes as the start,
    /// and is the halving of the element before it; the last element is all ones.
    pub proof fn lemma_mip_chain_elements(self)
        requires
            self.wf(),
        ensures
            forall|k: int|
                0 <= k < self.mip_chain().len() ==> (#[trigger] self.mip_chain()[k]).wf()
                    && self.mip_chain()[k].axes().len() == self.axes().len(),
            forall|k: int|
                0 < k < self.mip_chain().len() ==> #[trigger] self.mip_chain()[k]
                    == self.mip_chain()[k - 1].halved() && !self.mip_chain()[k - 1].is_unit(),
            self.mip_chain().last().is_unit(),
        decreases self.mip_count(),
    {
        self.lemma_mip_chain_step();
        self.lemma_halved();
        if !self.is_unit() {
            let hd = self.halved();
            hd.lemma_mip_chain_elements();
            hd.lemma_mip_chain_step();
            assert forall|k: int| 0 < k < self.mip_chain().len() implies #[trigger]
                self.mip_chain()[k] == self.mip_chain()[k - 1].halved() && !self.mip_chain()[k
                - 1].is_unit() by {
                assert(self.mip_chain()[k] == hd.mip_chain()[k - 1]);
                if k >= 2 {
                    assert(self.mip_chain()[k - 1] == hd.mip_chain()[k - 2]);
                }
            }
            assert forall|k: int| 0 <= k < self.mip_chain().len() implies (#[trigger]
                self.mip_chain()[k]).wf() && self.mip_chain()[k].axes().len()
                == self.axes().len() by {
                if k >= 1 {
                    assert(self.mip_chain()[k] == hd.mip_chain()[k - 1]);
                }
            }
            assert(self.mip_chain().last() == hd.mip_chain().last());
        }
    }
}

/// The mip chain of a well-formed size: after the first element, each element
/// halves (floor) every axis of the one before it, an axis of 1 staying 1, so
/// that its product is strictly smaller; the last element has every axis equal
/// to 1, and no earlier element does; and the chain has at most
/// `1 + max(⌈log2 w⌉, ⌈log2 h⌉, ⌈log2 d⌉)` elements.
pub proof fn lemma_mip_chain_shrinks(d: Dimensions)
    requires
        d.wf(),
    ensures
        forall|k: int|
            0 < k < d.mip_chain().len() ==> (#[trigger] d.mip_chain()[k]).spec_product()
                < d.mip_chain()[k - 1].spec_product(),
        forall|k: int, i: int|
            0 < k < d.mip_chain().len() && 0 <= i < d.axes().len() ==> (#[trigger] d.mip_chain()[
                k
            ].axes()[i]) == halve_axis(d.mip_chain()[k - 1].axes()[i]),
        d.mip_chain().last().is_unit(),
        forall|k: int| 0 <= k < d.mip_chain().len() - 1 ==> !(#[trigger] d.mip_chain()[k]).is_unit(),
        d.mip_chain().len() <= 1 + max3(
            ceil_log2(d.spec_width() as nat),
            ceil_log2(d.spec_height() as nat),
            ceil_log2(d.spec_depth() as nat),
        ),
{
    d.lemma_mip_chain_elements();
    assert forall|k: int| 0 <= k < d.mip_chain().len() - 1 implies !(#[trigger] d.mip_chain()[k]).is_unit() by {
        assert(d.mip_chain()[k + 1] == d.mip_chain()[k].halved());
    }
    assert forall|k: int| 0 < k < d.mip_chain().len() implies (#[trigger]
        d.mip_chain()[k]).spec_product() < d.mip_chain()[k - 1].spec_product() by {
        d.mip_chain()[k - 1].lemma_halved();
    }
    assert forall|k: int, i: int| 0 < k < d.mip_chain().len() && 0 <= i < d.axes().len() implies (
    #[trigger] d.mip_chain()[k].axes()[i]) == halve_axis(d.mip_chain()[k - 1].axes()[i]) by {
        d.mip_chain()[k - 1].lemma_halved();
    }
    lemma_floor_log2_le_ceil_log2(d.spec_width() as nat, d.spec_width() as nat);
    lemma_floor_log2_le_ceil_log2(d.spec_height() as nat, d.spec_height() as nat);
    lemma_floor_log2_le_ceil_log2(d.spec_depth() as nat, d.spec_depth() as nat);
}

} // verus!
