use vstd::prelude::*;
use vstd::arithmetic::div_mod::{
    lemma_div_by_multiple, lemma_div_is_ordered, lemma_div_is_ordered_by_denominator,
    lemma_div_pos_is_pos,
};
use crate::geom::{
    abs_i, add_seq, axes_bounded, axes_comp_x, axes_comp_y, axes_comp_z, axis_bounded, dot,
    int_view, ints_bounded, lemma_mul_bound, lemma_wsum_add, lemma_wsum_scale,
    norm_sq, scale_seq, well_scaled, wsum, Pt3, VisError, AXIS_BOUND, HALF, MAX_DIMS, POS_BOUND,
    SCALE, SCALE_SQ,
};
use crate::rng::rng_range_i64;

verus! {

/// Component magnitude of the four-dimensional basis vectors:
/// one world unit divided by the square root of three, rounded.
pub const TETRA_C: i64 = 37837;

/// Tolerance on the squared norm of a rounded basis vector, in `SCALE_SQ` units.
pub const NORM_TOL: i64 = 65536;

/// Tolerance on the squared norm of a normalized random direction, in
/// `SCALE_SQ` units: scaling a draw of length at least `SCALE / 16` by its
/// integer norm lands within one part in two thousand of the unit sphere.
pub const DIR_NORM_TOL: i64 = 2097152;

/// Smallest accepted squared norm of a raw direction draw, `(SCALE / 16)^2`:
/// closer to the origin the integer normalization loses too much precision.
const MIN_DIR_SQ: i64 = 16777216;

/// The three canonical render axes, exactly embedded in fixed point.
pub open spec fn canonical_axis(i: int) -> Pt3 {
    if i == 0 {
        Pt3 { x: SCALE, y: 0, z: 0 }
    } else if i == 1 {
        Pt3 { x: 0, y: SCALE, z: 0 }
    } else {
        Pt3 { x: 0, y: 0, z: SCALE }
    }
}

/// The four vertices of a regular tetrahedron on the unit sphere, rounded to
/// fixed point with one shared component magnitude.
pub open spec fn tetra_axis(i: int) -> Pt3 {
    if i == 0 {
        Pt3 { x: 37837, y: 37837, z: 37837 }
    } else if i == 1 {
        Pt3 { x: 37837, y: -37837i64, z: -37837i64 }
    } else if i == 2 {
        Pt3 { x: -37837i64, y: 37837, z: -37837i64 }
    } else {
        Pt3 { x: -37837i64, y: -37837i64, z: 37837 }
    }
}

/// Each canonical render axis has exactly unit norm and is a valid basis vector.
pub proof fn lemma_canonical_unit(i: int)
    ensures
        norm_sq(canonical_axis(i)) == SCALE_SQ,
        axis_bounded(canonical_axis(i)),
        well_scaled(canonical_axis(i)),
{
}

/// The four-dimensional basis is a regular tetrahedron: every vector has the
/// same squared norm, which is unit within `NORM_TOL`, and every pair of
/// distinct vectors has one and the same dot product, so all pairwise angles
/// are equal.
pub proof fn lemma_tetra_regular(i: int, j: int)
    requires
        0 <= i < 4,
        0 <= j < 4,
        i != j,
    ensures
        norm_sq(tetra_axis(i)) == norm_sq(tetra_axis(0)),
        SCALE_SQ - NORM_TOL <= norm_sq(tetra_axis(i)) <= SCALE_SQ + NORM_TOL,
        dot(tetra_axis(i), tetra_axis(j)) == -(TETRA_C * TETRA_C),
        axis_bounded(tetra_axis(i)),
        well_scaled(tetra_axis(i)),
{
    assert(37837int * 37837int == 1431638569int) by (nonlinear_arith);
    assert((-37837int) * (-37837int) == 1431638569int) by (nonlinear_arith);
    assert(37837int * (-37837int) == -1431638569int) by (nonlinear_arith);
    assert((-37837int) * 37837int == -1431638569int) by (nonlinear_arith);
}

/// Integer square root: the largest `r` with `r * r <= n`.
pub fn isqrt(n: i64) -> (r: i64)
    requires
        0 <= n,
    ensures
        0 <= r,
        r * r <= n,
        n < (r + 1) * (r + 1),
{
    let mut lo: i64 = 0;
    let mut hi: i64 = 3037000500;
    while lo + 1 < hi
        invariant
            0 <= lo < hi <= 3037000500,
            lo * lo <= n,
            n < hi * hi,
        decreases hi - lo,
    {
        let mid: i64 = lo + (hi - lo) / 2;
        assert(lo < mid < hi);
        assert(mid * mid <= 3037000499 * 3037000499) by (nonlinear_arith)
            requires 0 <= mid <= 3037000499;
        let sq: i64 = mid * mid;
        if sq <= n {
            lo = mid;
        } else {
            hi = mid;
        }
    }
    lo
}

/// Scales a component of a raw direction onto the unit sphere: computes
/// `v * SCALE / s` with truncation toward zero, for `|v| <= s`.
fn scale_div(v: i64, s: i64) -> (r: i64)
    requires
        1 <= s <= SCALE * 2,
        -s <= v <= s,
    ensures
        -SCALE <= r <= SCALE,
        v >= 0 ==> r == (v * SCALE) / (s as int),
        v < 0 ==> r == -(((-v) * SCALE) / (s as int)),
{
    let m: i64 = if v >= 0 {
        v
    } else {
        -v
    };
    assert(m * SCALE <= s * SCALE) by (nonlinear_arith)
        requires 0 <= m <= s && SCALE == 65536;
    assert(0 <= m * SCALE) by (nonlinear_arith)
        requires 0 <= m && SCALE == 65536;
    let num: i64 = m * SCALE;
    let q: i64 = num / s;
    proof {
        lemma_div_pos_is_pos(num as int, s as int);
        lemma_div_is_ordered(num as int, (s * SCALE) as int, s as int);
        lemma_div_by_multiple(SCALE as int, s as int);
        assert(s as int * SCALE as int == SCALE as int * s as int) by (nonlinear_arith);
        assert((s * SCALE) as int / (s as int) == SCALE as int);
    }
    if v >= 0 {
        q
    } else {
        -q
    }
}

/// Draws a pseudo-random direction on the unit sphere in fixed point: three
/// uniform draws give a point in the cube, which is scaled onto the sphere by
/// its integer norm; a draw too close to the origin falls back to the first
/// canonical axis. Whatever the generator returns, the result has unit norm
/// within `DIR_NORM_TOL`, every component is at most one world unit, and the
/// largest component is at least half a unit. The `_dims` argument is the
/// source dimensionality; it does not influence the draw.
pub fn gen_rand_vect(rng: &mut rand::rngs::StdRng, _dims: usize) -> (r: Pt3)
    ensures
        axis_bounded(r),
        well_scaled(r),
        SCALE_SQ - DIR_NORM_TOL <= norm_sq(r) <= SCALE_SQ + DIR_NORM_TOL,
{
    let x: i64 = rng_range_i64(rng, -SCALE, SCALE + 1);
    let y: i64 = rng_range_i64(rng, -SCALE, SCALE + 1);
    let z: i64 = rng_range_i64(rng, -SCALE, SCALE + 1);
    proof {
        lemma_mul_bound(x as int, x as int, SCALE as int, SCALE as int);
        lemma_mul_bound(y as int, y as int, SCALE as int, SCALE as int);
        lemma_mul_bound(z as int, z as int, SCALE as int, SCALE as int);
        assert(0 <= x as int * x as int) by (nonlinear_arith);
        assert(0 <= y as int * y as int) by (nonlinear_arith);
        assert(0 <= z as int * z as int) by (nonlinear_arith);
    }
    let xs: i64 = x * x;
    let ys: i64 = y * y;
    let zs: i64 = z * z;
    let n2: i64 = xs + ys + zs;
    if n2 < MIN_DIR_SQ {
        proof {
            lemma_canonical_unit(0);
        }
        return Pt3 { x: SCALE, y: 0, z: 0 };
    }
    let s: i64 = isqrt(n2);
    proof {
        assert(1 <= s) by (nonlinear_arith)
            requires
                0 <= s,
                (n2 as int) < (s as int + 1) * (s as int + 1),
                1 <= n2;
        assert(4096 <= s) by (nonlinear_arith)
            requires
                0 <= s,
                (n2 as int) < (s as int + 1) * (s as int + 1),
                16777216 <= n2;
        assert(s <= SCALE * 2) by (nonlinear_arith)
            requires
                0 <= s,
                s * s <= n2 as int,
                n2 as int <= 3 * (SCALE as int * SCALE as int),
                SCALE == 65536;
        lemma_component_within_norm(x as int, s as int, n2 as int, ys as int + zs as int);
        lemma_component_within_norm(y as int, s as int, n2 as int, xs as int + zs as int);
        lemma_component_within_norm(z as int, s as int, n2 as int, xs as int + ys as int);
    }
    let cx: i64 = scale_div(x, s);
    let cy: i64 = scale_div(y, s);
    let cz: i64 = scale_div(z, s);
    proof {
        lemma_largest_component_scaled(x as int, y as int, z as int, s as int, n2 as int,
            cx as int, cy as int, cz as int);
        lemma_scaled_norm(x as int, y as int, z as int, s as int, n2 as int, cx as int,
            cy as int, cz as int);
    }
    Pt3 { x: cx, y: cy, z: cz }
}

/// Bounds the square of one normalized component: with `q * s` within `s` of
/// `|v| * 65536`, the square `c * c * s^2` sits between `v^2 * 65536^2` minus
/// a cross term and `v^2 * 65536^2` itself.
proof fn lemma_component_sq(v: int, s: int, c: int)
    requires
        1 <= s,
        -s <= v <= s,
        c == if v >= 0 { (v * 65536) / s } else { -(((-v) * 65536) / s) },
    ensures
        c * c * (s * s) <= (v * v) * (65536 * 65536),
        c * c * (s * s) >= (v * v) * (65536 * 65536) - 2 * (abs_i(v) * 65536) * s,
{
    let m = abs_i(v);
    let q = (m * 65536) / s;
    assert(0 <= m * 65536) by (nonlinear_arith)
        requires 0 <= m;
    lemma_div_pos_is_pos(m * 65536, s);
    vstd::arithmetic::div_mod::lemma_fundamental_div_mod(m * 65536, s);
    vstd::arithmetic::div_mod::lemma_mod_pos_bound(m * 65536, s);
    let rem = (m * 65536) % s;
    assert(m * 65536 == s * q + rem);
    assert(q * s <= m * 65536 && q * s >= m * 65536 - s) by (nonlinear_arith)
        requires m * 65536 == s * q + rem && 0 <= rem < s;
    assert(c == q || c == -q);
    assert(c * c == q * q) by (nonlinear_arith)
        requires c == q || c == -q;
    assert(m * m == v * v) by (nonlinear_arith)
        requires m == v || m == -v;
    assert(q * q * (s * s) <= (m * m) * (65536 * 65536)) by (nonlinear_arith)
        requires
            0 <= q,
            1 <= s,
            0 <= m,
            q * s <= m * 65536;
    assert(q * q * (s * s) >= (m * m) * (65536 * 65536) - 2 * (m * 65536) * s)
        by (nonlinear_arith)
        requires
            0 <= q,
            1 <= s,
            0 <= m,
            q * s >= m * 65536 - s;
}

/// The normalized direction has unit norm within `DIR_NORM_TOL`: the draw's
/// squared norm lies between `s^2` and `(s + 1)^2`, so after scaling every
/// component by `65536 / s` the squared norm lands within `2 * 65536^2 / s`
/// above one and `6 * 65536` below it, both inside the tolerance once
/// `s >= 4096`.
proof fn lemma_scaled_norm(x: int, y: int, z: int, s: int, n2: int, cx: int, cy: int, cz: int)
    requires
        4096 <= s,
        s * s <= n2,
        n2 < (s + 1) * (s + 1),
        n2 == x * x + y * y + z * z,
        -s <= x <= s,
        -s <= y <= s,
        -s <= z <= s,
        cx == if x >= 0 { (x * 65536) / s } else { -(((-x) * 65536) / s) },
        cy == if y >= 0 { (y * 65536) / s } else { -(((-y) * 65536) / s) },
        cz == if z >= 0 { (z * 65536) / s } else { -(((-z) * 65536) / s) },
    ensures
        4294967296 - 2097152 <= cx * cx + cy * cy + cz * cz <= 4294967296 + 2097152,
{
    lemma_component_sq(x, s, cx);
    lemma_component_sq(y, s, cy);
    lemma_component_sq(z, s, cz);
    let a = cx * cx + cy * cy + cz * cz;
    assert(0 <= cx * cx && 0 <= cy * cy && 0 <= cz * cz) by (nonlinear_arith);
    assert(a * (s * s) == cx * cx * (s * s) + cy * cy * (s * s) + cz * cz * (s * s))
        by (nonlinear_arith)
        requires a == cx * cx + cy * cy + cz * cz;
    assert(n2 * (65536 * 65536) == (x * x) * (65536 * 65536) + (y * y) * (65536 * 65536) + (
    z * z) * (65536 * 65536)) by (nonlinear_arith)
        requires n2 == x * x + y * y + z * z;
    assert(a * (s * s) <= n2 * (65536 * 65536));
    assert(abs_i(x) <= s && abs_i(y) <= s && abs_i(z) <= s);
    assert(2 * (abs_i(x) * 65536) * s + 2 * (abs_i(y) * 65536) * s + 2 * (abs_i(z) * 65536) * s
        <= 6 * 65536 * (s * s)) by (nonlinear_arith)
        requires
            0 <= abs_i(x) <= s,
            0 <= abs_i(y) <= s,
            0 <= abs_i(z) <= s,
            1 <= s;
    assert(a * (s * s) >= n2 * (65536 * 65536) - 6 * 65536 * (s * s));
    assert(n2 <= s * s + 2 * s) by (nonlinear_arith)
        requires n2 < (s + 1) * (s + 1);
    assert(a <= 4294967296 + 2097152) by (nonlinear_arith)
        requires
            a * (s * s) <= (s * s + 2 * s) * (65536 * 65536),
            4096 <= s,
            0 <= a;
    assert(a >= 4294967296 - 2097152) by (nonlinear_arith)
        requires
            a * (s * s) >= (s * s) * (65536 * 65536) - 6 * 65536 * (s * s),
            1 <= s;
}

/// A component of a vector is bounded by the integer square root of the
/// squared norm: from `v * v + rest == n2`, `rest >= 0` and `n2 < (s+1)^2`
/// follows `|v| <= s`.
proof fn lemma_component_within_norm(v: int, s: int, n2: int, rest: int)
    by (nonlinear_arith)
    requires
        0 <= s,
        v * v + rest == n2,
        0 <= rest,
        n2 < (s + 1) * (s + 1),
    ensures
        -s <= v <= s,
{
}

/// The largest component of the scaled direction reaches half a world unit:
/// the largest raw magnitude `m` satisfies `3 * m * m >= n2 >= s * s`, so
/// `s <= 2 * m - 1` and the scaled value `m * SCALE / s` is at least `HALF`.
proof fn lemma_largest_component_scaled(
    x: int,
    y: int,
    z: int,
    s: int,
    n2: int,
    cx: int,
    cy: int,
    cz: int,
)
    requires
        1 <= s,
        s * s <= n2,
        n2 == x * x + y * y + z * z,
        1 <= n2,
        cx == if x >= 0 { (x * 65536) / s } else { -(((-x) * 65536) / s) },
        cy == if y >= 0 { (y * 65536) / s } else { -(((-y) * 65536) / s) },
        cz == if z >= 0 { (z * 65536) / s } else { -(((-z) * 65536) / s) },
    ensures
        abs_i(cx) >= HALF || abs_i(cy) >= HALF || abs_i(cz) >= HALF,
{
    let mx = abs_i(x);
    let my = abs_i(y);
    let mz = abs_i(z);
    let m = if mx >= my && mx >= mz {
        mx
    } else if my >= mz {
        my
    } else {
        mz
    };
    assert(m >= mx && m >= my && m >= mz);
    assert(n2 <= 3 * (m * m)) by (nonlinear_arith)
        requires
            n2 == x * x + y * y + z * z,
            m >= abs_i(x),
            m >= abs_i(y),
            m >= abs_i(z),
            0 <= m;
    assert(1 <= m) by (nonlinear_arith)
        requires
            n2 <= 3 * (m * m),
            1 <= n2,
            0 <= m;
    assert(s < 2 * m) by (nonlinear_arith)
        requires
            1 <= s,
            s * s <= n2,
            n2 <= 3 * (m * m),
            1 <= n2,
            0 <= m;
    assert((m * 65536) / s >= HALF) by {
        lemma_div_is_ordered_by_denominator(m * 65536, s, 2 * m - 1);
        lemma_div_ge_half(m);
    }
    if m == mx {
        lemma_scaled_abs(x, s, cx, m);
    } else if m == my {
        lemma_scaled_abs(y, s, cy, m);
    } else {
        lemma_scaled_abs(z, s, cz, m);
    }
}

/// `(m * 65536) / (2 * m - 1) >= 32768` for `m >= 1`.
proof fn lemma_div_ge_half(m: int)
    requires
        1 <= m,
    ensures
        (m * 65536) / (2 * m - 1) >= 32768,
{
    let d = 2 * m - 1;
    assert(m * 65536 == 32768 * d + 32768) by (nonlinear_arith)
        requires d == 2 * m - 1;
    assert((32768 * d + 32768) / d == 32768 + 32768int / d) by {
        vstd::arithmetic::div_mod::lemma_hoist_over_denominator(32768, 32768, d as nat);
        assert(32768 * d == d * 32768) by (nonlinear_arith);
    }
    lemma_div_pos_is_pos(32768, d);
}

/// Relates the signed scaled component to the magnitude form used above.
proof fn lemma_scaled_abs(v: int, s: int, c: int, m: int)
    requires
        1 <= s,
        m == abs_i(v),
        c == if v >= 0 { (v * 65536) / s } else { -(((-v) * 65536) / s) },
        (m * 65536) / s >= HALF,
    ensures
        abs_i(c) >= HALF,
{
    if v >= 0 {
        assert(m == v);
        lemma_div_pos_is_pos(v * 65536, s);
    } else {
        assert(m == -v);
        lemma_div_pos_is_pos((-v) * 65536, s);
    }
}

/// Produces the render basis for `dims` source dimensions: the canonical axes
/// for `dims <= 3`, the regular tetrahedron for `dims == 4`, and one
/// independently drawn random direction per axis beyond four.
pub fn generate_axes(dims: usize, rng: &mut rand::rngs::StdRng) -> (r: Vec<Pt3>)
    requires
        dims <= MAX_DIMS,
    ensures
        r@.len() == dims,
        axes_bounded(r@),
        forall|i: int| 0 <= i < dims ==> well_scaled(#[trigger] r@[i]),
        forall|i: int|
            0 <= i < dims ==> SCALE_SQ - DIR_NORM_TOL <= norm_sq(#[trigger] r@[i]) <= SCALE_SQ
                + DIR_NORM_TOL,
        dims <= 3 ==> forall|i: int| 0 <= i < dims ==> r@[i] == canonical_axis(i),
        dims <= 3 ==> forall|i: int| 0 <= i < dims ==> norm_sq(#[trigger] r@[i]) == SCALE_SQ,
        dims == 4 ==> forall|i: int| 0 <= i < dims ==> r@[i] == tetra_axis(i),
{
    let mut out: Vec<Pt3> = Vec::new();
    if dims <= 3 {
        let mut i: usize = 0;
        while i < dims
            invariant
                i <= dims <= 3,
                out@.len() == i,
                forall|k: int| 0 <= k < i ==> out@[k] == canonical_axis(k),
            decreases dims - i,
        {
            if i == 0 {
                out.push(Pt3 { x: SCALE, y: 0, z: 0 });
            } else if i == 1 {
                out.push(Pt3 { x: 0, y: SCALE, z: 0 });
            } else {
                out.push(Pt3 { x: 0, y: 0, z: SCALE });
            }
            i = i + 1;
        }
        proof {
            assert forall|i: int| 0 <= i < dims implies axis_bounded(#[trigger] out@[i])
                && well_scaled(out@[i]) && norm_sq(out@[i]) == SCALE_SQ by {
                lemma_canonical_unit(i);
            }
        }
    } else if dims == 4 {
        out.push(Pt3 { x: TETRA_C, y: TETRA_C, z: TETRA_C });
        out.push(Pt3 { x: TETRA_C, y: -TETRA_C, z: -TETRA_C });
        out.push(Pt3 { x: -TETRA_C, y: TETRA_C, z: -TETRA_C });
        out.push(Pt3 { x: -TETRA_C, y: -TETRA_C, z: TETRA_C });
        proof {
            assert forall|i: int| 0 <= i < 4 implies out@[i] == tetra_axis(i) by {}
            assert forall|i: int| 0 <= i < dims implies axis_bounded(#[trigger] out@[i])
                && well_scaled(out@[i]) && SCALE_SQ - DIR_NORM_TOL <= norm_sq(out@[i])
                <= SCALE_SQ + DIR_NORM_TOL by {
                lemma_tetra_regular(i, if i == 0 { 1 } else { 0 });
            }
        }
    } else {
        let mut i: usize = 0;
        while i < dims
            invariant
                i <= dims,
                out@.len() == i,
                forall|k: int| 0 <= k < i ==> axis_bounded(#[trigger] out@[k]),
                forall|k: int| 0 <= k < i ==> well_scaled(#[trigger] out@[k]),
                forall|k: int|
                    0 <= k < i ==> SCALE_SQ - DIR_NORM_TOL <= norm_sq(#[trigger] out@[k])
                        <= SCALE_SQ + DIR_NORM_TOL,
            decreases dims - i,
        {
            let v = gen_rand_vect(rng, dims);
            out.push(v);
            i = i + 1;
        }
    }
    out
}

/// A linear map from a `D`-dimensional fixed-point coordinate to a 3-space
/// point. The single implementation projects through an axis basis, but the
/// interface leaves room for other variants.
pub trait Projection {
    /// Source dimensionality the map accepts.
    spec fn proj_dims(&self) -> nat;

    /// Coordinates the map is prepared for (magnitude limits of the carrier).
    spec fn proj_ready(&self, pos: Seq<int>) -> bool;

    /// The mathematical image of a coordinate vector, one integer per
    /// render component.
    spec fn proj_map(&self, pos: Seq<int>) -> (int, int, int);

    /// Projects a coordinate vector, reporting a dimension mismatch as an
    /// error rather than truncating.
    fn project(&self, pos: &Vec<i64>) -> (r: Result<Pt3, VisError>)
        requires
            self.proj_ready(int_view(pos@)),
        ensures
            r is Ok <==> pos@.len() == self.proj_dims(),
            r matches Ok(p) ==> (p.x as int, p.y as int, p.z as int) == self.proj_map(
                int_view(pos@),
            ),
            r matches Err(e) ==> e == VisError::DimensionMismatch,
    ;
}

/// The axis-basis projection: a weighted sum of one basis vector per source
/// dimension.
pub struct AxisProjection {
    axes: Vec<Pt3>,
}

impl AxisProjection {
    /// The basis, one unit 3-vector per source dimension.
    pub closed spec fn axes_view(&self) -> Seq<Pt3> {
        self.axes@
    }

    /// Well-formedness: the basis is small enough and each vector bounded,
    /// so every projection of bounded coordinates fits in `i64`.
    pub open spec fn wf(&self) -> bool {
        &&& self.axes_view().len() <= MAX_DIMS
        &&& axes_bounded(self.axes_view())
    }

    pub open spec fn spec_dims(&self) -> nat {
        self.axes_view().len()
    }

    /// The first render component of the projection of `pos`.
    pub open spec fn proj_x_of(&self, pos: Seq<int>) -> int {
        wsum(pos, axes_comp_x(self.axes_view()))
    }

    /// The second render component of the projection of `pos`.
    pub open spec fn proj_y_of(&self, pos: Seq<int>) -> int {
        wsum(pos, axes_comp_y(self.axes_view()))
    }

    /// The third render component of the projection of `pos`.
    pub open spec fn proj_z_of(&self, pos: Seq<int>) -> int {
        wsum(pos, axes_comp_z(self.axes_view()))
    }

    /// Wraps an explicit basis.
    pub fn from_axes(axes: Vec<Pt3>) -> (r: Self)
        requires
            axes@.len() <= MAX_DIMS,
            axes_bounded(axes@),
        ensures
            r.axes_view() == axes@,
            r.wf(),
    {
        AxisProjection { axes }
    }

    /// Generates the basis for `dims` dimensions and wraps it.
    pub fn new(dims: usize, rng: &mut rand::rngs::StdRng) -> (r: Self)
        requires
            dims <= MAX_DIMS,
        ensures
            r.wf(),
            r.spec_dims() == dims,
            forall|i: int| 0 <= i < dims ==> well_scaled(#[trigger] r.axes_view()[i]),
            forall|i: int|
                0 <= i < dims ==> SCALE_SQ - DIR_NORM_TOL <= norm_sq(#[trigger] r.axes_view()[i])
                    <= SCALE_SQ + DIR_NORM_TOL,
            dims <= 3 ==> forall|i: int| 0 <= i < dims ==> r.axes_view()[i] == canonical_axis(i),
            dims <= 3 ==> forall|i: int|
                0 <= i < dims ==> norm_sq(#[trigger] r.axes_view()[i]) == SCALE_SQ,
            dims == 4 ==> forall|i: int| 0 <= i < dims ==> r.axes_view()[i] == tetra_axis(i),
    {
        let axes = generate_axes(dims, rng);
        Self::from_axes(axes)
    }

    /// Source dimensionality of the basis.
    pub fn dims(&self) -> (r: usize)
        ensures
            r == self.spec_dims(),
    {
        self.axes.len()
    }

    /// Projects a coordinate vector whose length is known to match: the
    /// weighted sum `pos[0] * axis[0] + ... + pos[D-1] * axis[D-1]`, exactly.
    pub fn project_pt(&self, pos: &Vec<i64>) -> (r: Pt3)
        requires
            self.wf(),
            ints_bounded(int_view(pos@)),
            pos@.len() == self.spec_dims(),
        ensures
            r.x as int == self.proj_x_of(int_view(pos@)),
            r.y as int == self.proj_y_of(int_view(pos@)),
            r.z as int == self.proj_z_of(int_view(pos@)),
    {
        let ghost pseq: Seq<int> = int_view(pos@);
        let ghost wx: Seq<int> = axes_comp_x(self.axes_view());
        let ghost wy: Seq<int> = axes_comp_y(self.axes_view());
        let ghost wz: Seq<int> = axes_comp_z(self.axes_view());
        let mut xacc: i64 = 0;
        let mut yacc: i64 = 0;
        let mut zacc: i64 = 0;
        let n = pos.len();
        let mut i: usize = 0;
        while i < n
            invariant
                self.wf(),
                ints_bounded(pseq),
                pseq == int_view(pos@),
                wx == axes_comp_x(self.axes_view()),
                wy == axes_comp_y(self.axes_view()),
                wz == axes_comp_z(self.axes_view()),
                n == pos@.len(),
                pos@.len() == self.spec_dims(),
                0 <= i <= n,
                xacc as int == wsum(pseq.take(i as int), wx.take(i as int)),
                yacc as int == wsum(pseq.take(i as int), wy.take(i as int)),
                zacc as int == wsum(pseq.take(i as int), wz.take(i as int)),
                -(i as int * 72057594037927936) <= xacc as int <= i as int * 72057594037927936,
                -(i as int * 72057594037927936) <= yacc as int <= i as int * 72057594037927936,
                -(i as int * 72057594037927936) <= zacc as int <= i as int * 72057594037927936,
            decreases n - i,
        {
            let p: i64 = pos[i];
            let a: Pt3 = self.axes[i];
            proof {
                assert(pseq[i as int] == p as int);
                assert(axis_bounded(a));
                lemma_mul_bound(p as int, a.x as int, POS_BOUND as int, AXIS_BOUND as int);
                lemma_mul_bound(p as int, a.y as int, POS_BOUND as int, AXIS_BOUND as int);
                lemma_mul_bound(p as int, a.z as int, POS_BOUND as int, AXIS_BOUND as int);
                assert(i as int * 72057594037927936 <= 64 * 72057594037927936);
                assert(pseq.take(i as int + 1).drop_last() =~= pseq.take(i as int));
                assert(wx.take(i as int + 1).drop_last() =~= wx.take(i as int));
                assert(wy.take(i as int + 1).drop_last() =~= wy.take(i as int));
                assert(wz.take(i as int + 1).drop_last() =~= wz.take(i as int));
                assert(pseq.take(i as int + 1).last() == p as int);
                assert(wx.take(i as int + 1).last() == a.x as int);
                assert(wy.take(i as int + 1).last() == a.y as int);
                assert(wz.take(i as int + 1).last() == a.z as int);
            }
            xacc = xacc + p * a.x;
            yacc = yacc + p * a.y;
            zacc = zacc + p * a.z;
            i = i + 1;
        }
        proof {
            assert(pseq.take(n as int) =~= pseq);
            assert(wx.take(n as int) =~= wx);
            assert(wy.take(n as int) =~= wy);
            assert(wz.take(n as int) =~= wz);
        }
        Pt3 { x: xacc, y: yacc, z: zacc }
    }
}

impl Projection for AxisProjection {
    open spec fn proj_dims(&self) -> nat {
        self.spec_dims()
    }

    open spec fn proj_ready(&self, pos: Seq<int>) -> bool {
        self.wf() && ints_bounded(pos)
    }

    open spec fn proj_map(&self, pos: Seq<int>) -> (int, int, int) {
        (self.proj_x_of(pos), self.proj_y_of(pos), self.proj_z_of(pos))
    }

    fn project(&self, pos: &Vec<i64>) -> (r: Result<Pt3, VisError>) {
        if pos.len() != self.axes.len() {
            Err(VisError::DimensionMismatch)
        } else {
            Ok(self.project_pt(pos))
        }
    }
}

/// The projection is additive: projecting the pointwise sum of two coordinate
/// vectors of the basis's dimensionality gives the component-wise sum of the
/// two projections.
pub proof fn lemma_projection_additive(p: AxisProjection, a: Seq<int>, b: Seq<int>)
    requires
        a.len() == b.len(),
    ensures
        p.proj_x_of(add_seq(a, b)) == p.proj_x_of(a) + p.proj_x_of(b),
        p.proj_y_of(add_seq(a, b)) == p.proj_y_of(a) + p.proj_y_of(b),
        p.proj_z_of(add_seq(a, b)) == p.proj_z_of(a) + p.proj_z_of(b),
{
    lemma_wsum_add(a, b, axes_comp_x(p.axes_view()));
    lemma_wsum_add(a, b, axes_comp_y(p.axes_view()));
    lemma_wsum_add(a, b, axes_comp_z(p.axes_view()));
}

/// With the canonical basis of `dims <= 3` source dimensions, the projection
/// is a lossless embedding: each source coordinate lands on its own render
/// axis, scaled by one world unit, and the unused render axes stay zero.
pub proof fn lemma_low_dim_lossless(p: AxisProjection, pos: Seq<int>)
    requires
        p.spec_dims() <= 3,
        pos.len() == p.spec_dims(),
        forall|i: int| 0 <= i < p.spec_dims() ==> p.axes_view()[i] == canonical_axis(i),
    ensures
        p.proj_x_of(pos) == if pos.len() >= 1 { pos[0] * SCALE } else { 0 },
        p.proj_y_of(pos) == if pos.len() >= 2 { pos[1] * SCALE } else { 0 },
        p.proj_z_of(pos) == if pos.len() >= 3 { pos[2] * SCALE } else { 0 },
{
    let wx = axes_comp_x(p.axes_view());
    let wy = axes_comp_y(p.axes_view());
    let wz = axes_comp_z(p.axes_view());
    let n = pos.len() as int;
    if n >= 1 {
        assert(p.axes_view()[0] == canonical_axis(0));
        assert(wx[0] == SCALE as int && wy[0] == 0 && wz[0] == 0);
    }
    if n >= 2 {
        assert(p.axes_view()[1] == canonical_axis(1));
        assert(wx[1] == 0 && wy[1] == SCALE as int && wz[1] == 0);
    }
    if n >= 3 {
        assert(p.axes_view()[2] == canonical_axis(2));
        assert(wx[2] == 0 && wy[2] == 0 && wz[2] == SCALE as int);
    }
    assert(pos[0] * 0 == 0) by (nonlinear_arith);
    assert(pos[1] * 0 == 0) by (nonlinear_arith);
    assert(pos[2] * 0 == 0) by (nonlinear_arith);
    if n == 1 {
        let p0 = pos.drop_last();
        assert(p0.len() == 0);
        assert(wsum(p0, wx.drop_last()) == 0);
        assert(wsum(p0, wy.drop_last()) == 0);
        assert(wsum(p0, wz.drop_last()) == 0);
        assert(wsum(pos, wx) == 0 + pos[0] * wx[0]);
        assert(wsum(pos, wy) == 0 + pos[0] * wy[0]);
        assert(wsum(pos, wz) == 0 + pos[0] * wz[0]);
    } else if n == 2 {
        lemma_wsum_expand_two(pos, wx);
        lemma_wsum_expand_two(pos, wy);
        lemma_wsum_expand_two(pos, wz);
    } else if n == 3 {
        lemma_wsum_expand_three(pos, wx);
        lemma_wsum_expand_three(pos, wy);
        lemma_wsum_expand_three(pos, wz);
    }
}

/// Unfolds a weighted sum of two entries.
proof fn lemma_wsum_expand_two(pos: Seq<int>, w: Seq<int>)
    requires
        pos.len() == 2,
        w.len() == 2,
    ensures
        wsum(pos, w) == pos[0] * w[0] + pos[1] * w[1],
{
    let p1 = pos.drop_last();
    let w1 = w.drop_last();
    assert(wsum(pos, w) == wsum(p1, w1) + pos[1] * w[1]);
    assert(wsum(p1, w1) == wsum(p1.drop_last(), w1.drop_last()) + p1[0] * w1[0]);
    assert(p1[0] == pos[0] && w1[0] == w[0]);
}

/// Unfolds a weighted sum of three entries.
proof fn lemma_wsum_expand_three(pos: Seq<int>, w: Seq<int>)
    requires
        pos.len() == 3,
        w.len() == 3,
    ensures
        wsum(pos, w) == pos[0] * w[0] + pos[1] * w[1] + pos[2] * w[2],
{
    let p2 = pos.drop_last();
    let w2 = w.drop_last();
    assert(wsum(pos, w) == wsum(p2, w2) + pos[2] * w[2]);
    lemma_wsum_expand_two(p2, w2);
    assert(p2[0] == pos[0] && p2[1] == pos[1] && w2[0] == w[0] && w2[1] == w[1]);
}

/// The projection is homogeneous: projecting a coordinate vector scaled by
/// `k` gives the projection scaled by `k`.
pub proof fn lemma_projection_homogeneous(p: AxisProjection, k: int, a: Seq<int>)
    ensures
        p.proj_x_of(scale_seq(k, a)) == k * p.proj_x_of(a),
        p.proj_y_of(scale_seq(k, a)) == k * p.proj_y_of(a),
        p.proj_z_of(scale_seq(k, a)) == k * p.proj_z_of(a),
{
    lemma_wsum_scale(k, a, axes_comp_x(p.axes_view()));
    lemma_wsum_scale(k, a, axes_comp_y(p.axes_view()));
    lemma_wsum_scale(k, a, axes_comp_z(p.axes_view()));
}

} // verus!
