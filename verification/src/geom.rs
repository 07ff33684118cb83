use vstd::prelude::*;

verus! {

/// World coordinates are fixed-point: an `i64` counts multiples of `1 / SCALE`
/// of a world unit, so exact integer arithmetic stands in for the real-valued
/// geometry.
pub const SCALE: i64 = 65536;

/// Half a world unit in fixed-point form (cell centers sit at `.5` offsets).
pub const HALF: i64 = 32768;

/// A projected point carries the product of a position and an axis component,
/// so its unit is `1 / (SCALE * SCALE)` of a world unit.
pub const SCALE_SQ: i64 = 4294967296;

/// Largest dimensionality the projection accepts; keeps weighted sums inside `i64`.
pub const MAX_DIMS: usize = 64;

/// Largest magnitude of a single fixed-point coordinate fed to the projection.
pub const POS_BOUND: i64 = 549755813888;

/// Largest magnitude of a basis-vector component.
pub const AXIS_BOUND: i64 = 131072;

/// Largest per-axis width of a lattice shape; keeps scaled corners below
/// `POS_BOUND`.
pub const MAX_WIDTH: usize = 8388608;

/// A 3-space point or direction in fixed-point form.
#[derive(Clone, Copy, PartialEq, Eq, Structural, Debug)]
pub struct Pt3 {
    pub x: i64,
    pub y: i64,
    pub z: i64,
}

/// Errors reported by the projection and sampling layer.
#[derive(Clone, Copy, PartialEq, Eq, Structural, Debug)]
pub enum VisError {
    /// A coordinate's length does not match the dimensionality of the basis.
    DimensionMismatch,
}

pub open spec fn axis_bounded(a: Pt3) -> bool {
    &&& -AXIS_BOUND <= a.x <= AXIS_BOUND
    &&& -AXIS_BOUND <= a.y <= AXIS_BOUND
    &&& -AXIS_BOUND <= a.z <= AXIS_BOUND
}

pub open spec fn axes_bounded(axes: Seq<Pt3>) -> bool {
    forall|i: int| 0 <= i < axes.len() ==> axis_bounded(#[trigger] axes[i])
}

/// The mathematical image of a fixed-point coordinate vector.
pub open spec fn int_view(pos: Seq<i64>) -> Seq<int> {
    Seq::new(pos.len(), |i: int| pos[i] as int)
}

pub open spec fn ints_bounded(pos: Seq<int>) -> bool {
    forall|i: int| 0 <= i < pos.len() ==> -POS_BOUND <= #[trigger] pos[i] <= POS_BOUND
}

pub open spec fn abs_i(v: int) -> int {
    if v < 0 {
        -v
    } else {
        v
    }
}

/// A direction whose largest component reaches at least half a world unit.
pub open spec fn well_scaled(a: Pt3) -> bool {
    abs_i(a.x as int) >= HALF || abs_i(a.y as int) >= HALF || abs_i(a.z as int) >= HALF
}

/// The `x` components of a basis, as unbounded integers.
pub open spec fn axes_comp_x(axes: Seq<Pt3>) -> Seq<int> {
    Seq::new(axes.len(), |i: int| axes[i].x as int)
}

/// The `y` components of a basis, as unbounded integers.
pub open spec fn axes_comp_y(axes: Seq<Pt3>) -> Seq<int> {
    Seq::new(axes.len(), |i: int| axes[i].y as int)
}

/// The `z` components of a basis, as unbounded integers.
pub open spec fn axes_comp_z(axes: Seq<Pt3>) -> Seq<int> {
    Seq::new(axes.len(), |i: int| axes[i].z as int)
}

/// Dot product of two 3-vectors, as unbounded integers.
pub open spec fn dot(a: Pt3, b: Pt3) -> int {
    a.x * b.x + a.y * b.y + a.z * b.z
}

/// Squared norm of a 3-vector.
pub open spec fn norm_sq(a: Pt3) -> int {
    dot(a, a)
}

/// Weighted sum of a coordinate vector against one component of the basis:
/// `pos[0] * ws[0] + ... + pos[n-1] * ws[n-1]`.
pub open spec fn wsum(pos: Seq<int>, ws: Seq<int>) -> int
    decreases pos.len(),
{
    if pos.len() == 0 || ws.len() == 0 {
        0
    } else {
        wsum(pos.drop_last(), ws.drop_last()) + pos.last() * ws.last()
    }
}

/// Pointwise sum of two coordinate vectors.
pub open spec fn add_seq(a: Seq<int>, b: Seq<int>) -> Seq<int> {
    Seq::new(a.len(), |i: int| a[i] + b[i])
}

/// A coordinate vector scaled by `k`.
pub open spec fn scale_seq(k: int, a: Seq<int>) -> Seq<int> {
    a.map_values(|c: int| k * c)
}

pub proof fn lemma_mul_bound(x: int, y: int, a: int, b: int)
    by (nonlinear_arith)
    requires
        -a <= x <= a,
        -b <= y <= b,
        0 <= a,
        0 <= b,
    ensures
        -(a * b) <= x * y <= a * b,
{
}

/// The projection is additive: summing two coordinate vectors and projecting
/// gives the sum of the projections, one weighted sum at a time.
pub proof fn lemma_wsum_add(a: Seq<int>, b: Seq<int>, w: Seq<int>)
    requires
        a.len() == b.len(),
    ensures
        wsum(add_seq(a, b), w) == wsum(a, w) + wsum(b, w),
    decreases a.len(),
{
    if a.len() == 0 || w.len() == 0 {
        assert(add_seq(a, b).len() == a.len());
    } else {
        lemma_wsum_add(a.drop_last(), b.drop_last(), w.drop_last());
        assert(add_seq(a, b).drop_last() =~= add_seq(a.drop_last(), b.drop_last()));
        assert((a.last() + b.last()) * w.last() == a.last() * w.last() + b.last() * w.last())
            by (nonlinear_arith);
    }
}

/// The projection is homogeneous: scaling a coordinate vector by `k` scales
/// each weighted sum by `k`.
pub proof fn lemma_wsum_scale(k: int, a: Seq<int>, w: Seq<int>)
    ensures
        wsum(scale_seq(k, a), w) == k * wsum(a, w),
    decreases a.len(),
{
    if a.len() == 0 || w.len() == 0 {
        assert(scale_seq(k, a).len() == a.len());
        assert(k * 0 == 0) by (nonlinear_arith);
    } else {
        lemma_wsum_scale(k, a.drop_last(), w.drop_last());
        assert(scale_seq(k, a).drop_last() =~= scale_seq(k, a.drop_last()));
        assert(scale_seq(k, a).last() == k * a.last());
        assert((k * a.last()) * w.last() == k * (a.last() * w.last())) by (nonlinear_arith);
        assert(k * wsum(a.drop_last(), w.drop_last()) + k * (a.last() * w.last()) == k * (
        wsum(a.drop_last(), w.drop_last()) + a.last() * w.last())) by (nonlinear_arith);
    }
}

} // verus!
