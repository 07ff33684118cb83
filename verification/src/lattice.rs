use vstd::prelude::*;
use vstd::arithmetic::div_mod::lemma_fundamental_div_mod_converse;
use crate::geom::{int_view, ints_bounded, Pt3, VisError, MAX_WIDTH, POS_BOUND, SCALE};
use crate::projection::AxisProjection;

verus! {

/// Number of corners of a box with the given per-axis widths.
pub open spec fn shape_prod(s: Seq<usize>) -> int
    decreases s.len(),
{
    if s.len() == 0 {
        1
    } else {
        s.first() * shape_prod(s.drop_first())
    }
}

/// A valid lattice shape: a positive width on every axis.
pub open spec fn shape_wf(s: Seq<usize>) -> bool {
    forall|i: int| 0 <= i < s.len() ==> 1 <= #[trigger] s[i]
}

/// A shape the projection layer can scale without overflow.
pub open spec fn shape_sizes_ok(s: Seq<usize>) -> bool {
    forall|i: int| 0 <= i < s.len() ==> #[trigger] s[i] <= MAX_WIDTH
}

/// `c` is an integer corner inside the box of shape `s`.
pub open spec fn in_box(c: Seq<usize>, s: Seq<usize>) -> bool {
    c.len() == s.len() && forall|i: int| 0 <= i < c.len() ==> #[trigger] c[i] < s[i]
}

/// The corner of the box `widths` at position `t` of the row-major
/// enumeration: the first axis varies slowest.
pub open spec fn corner_at(widths: Seq<usize>, t: int) -> Seq<usize>
    decreases widths.len(),
{
    if widths.len() == 0 {
        Seq::empty()
    } else {
        let l = shape_prod(widths.drop_first());
        seq![(t / l) as usize] + corner_at(widths.drop_first(), t % l)
    }
}

/// The shape with the width of axis `d` lowered by one: the box of all
/// corners that still have a +1 neighbor along `d`.
pub open spec fn reduced(shape: Seq<usize>, d: int) -> Seq<usize> {
    shape.update(d, (shape[d] - 1) as usize)
}

/// Number of lattice edges along the first `d` axes.
pub open spec fn edge_count_upto(shape: Seq<usize>, d: int) -> int
    decreases d,
{
    if d <= 0 {
        0
    } else {
        edge_count_upto(shape, d - 1) + shape_prod(reduced(shape, d - 1))
    }
}

/// Total number of internal edges of the lattice: for each axis `d`, one edge
/// per corner of the box with that axis shortened by one, which is
/// `(shape[d] - 1)` times the product of the other widths.
pub open spec fn edge_count(shape: Seq<usize>) -> int {
    edge_count_upto(shape, shape.len() as int)
}

/// A box's corner count factors through any one axis: the width of axis `d`
/// times the corner count of the remaining axes.
pub proof fn lemma_prod_factor(s: Seq<usize>, d: int)
    requires
        0 <= d < s.len(),
    ensures
        shape_prod(s) == s[d] * shape_prod(s.remove(d)),
    decreases d,
{
    if d == 0 {
        assert(s.remove(0) =~= s.drop_first());
    } else {
        let df = s.drop_first();
        lemma_prod_factor(df, d - 1);
        assert(s.remove(d).drop_first() =~= df.remove(d - 1));
        assert(s.remove(d).first() == s.first());
        assert(shape_prod(s.remove(d)) == s.first() * shape_prod(df.remove(d - 1)));
        assert(df[d - 1] == s[d]);
        assert(s.first() as int * (s[d] as int * shape_prod(df.remove(d - 1))) == s[d] as int * (
        s.first() as int * shape_prod(df.remove(d - 1)))) by (nonlinear_arith);
    }
}

/// The edge block of axis `d` holds exactly `(shape[d] - 1)` times the
/// product of the other widths: the closed form of the per-axis edge count.
pub proof fn lemma_edge_block_count(shape: Seq<usize>, d: int)
    requires
        shape_wf(shape),
        0 <= d < shape.len(),
    ensures
        shape_prod(reduced(shape, d)) == (shape[d] - 1) * shape_prod(shape.remove(d)),
{
    let red = reduced(shape, d);
    lemma_prod_factor(red, d);
    assert(red.remove(d) =~= shape.remove(d));
    assert(red[d] == shape[d] - 1);
}

/// The corner `c`, scaled to fixed point.
pub open spec fn scaled(c: Seq<usize>) -> Seq<int> {
    Seq::new(c.len(), |i: int| c[i] * SCALE)
}

/// The corner `c` with axis `d` bumped to its +1 neighbor, scaled to fixed
/// point.
pub open spec fn bumped(c: Seq<usize>, d: int) -> Seq<int> {
    scaled(c).update(d, (c[d] + 1) * SCALE)
}

/// `seg` is the projection of a real lattice edge of `shape` under `proj`:
/// its first point is the image of a corner `c`, its second the image of the
/// +1 neighbor of `c` along some axis `d`, and that neighbor is in bounds.
pub open spec fn is_projected_edge(proj: AxisProjection, shape: Seq<usize>, seg: (Pt3, Pt3)) -> bool {
    exists|c: Seq<usize>, d: int|
        {
            &&& #[trigger] in_box(c, shape)
            &&& 0 <= d < shape.len()
            &&& c[d] + 1 < shape[d]
            &&& seg.0.x as int == proj.proj_x_of(scaled(c))
            &&& seg.0.y as int == proj.proj_y_of(scaled(c))
            &&& seg.0.z as int == proj.proj_z_of(scaled(c))
            &&& seg.1.x as int == proj.proj_x_of(#[trigger] bumped(c, d))
            &&& seg.1.y as int == proj.proj_y_of(bumped(c, d))
            &&& seg.1.z as int == proj.proj_z_of(bumped(c, d))
        }
}

/// Enumerates every corner of the box with the given widths, in row-major
/// order: the result holds exactly the corners `corner_at(widths, 0)` through
/// `corner_at(widths, shape_prod(widths) - 1)`.
pub fn corners(widths: &Vec<usize>) -> (r: Vec<Vec<usize>>)
    ensures
        r@.len() == shape_prod(widths@),
        forall|t: int| 0 <= t < r@.len() ==> (#[trigger] r@[t])@ == corner_at(widths@, t),
        forall|t: int| 0 <= t < r@.len() ==> in_box((#[trigger] r@[t])@, widths@),
{
    let r = corners_from(widths, 0);
    proof {
        assert(widths@.skip(0) =~= widths@);
    }
    r
}

/// Enumerates the corners of the box formed by `widths[k..]`.
fn corners_from(widths: &Vec<usize>, k: usize) -> (r: Vec<Vec<usize>>)
    requires
        k <= widths@.len(),
    ensures
        r@.len() == shape_prod(widths@.skip(k as int)),
        forall|t: int| 0 <= t < r@.len() ==> (#[trigger] r@[t])@ == corner_at(
            widths@.skip(k as int),
            t,
        ),
        forall|t: int| 0 <= t < r@.len() ==> in_box((#[trigger] r@[t])@, widths@.skip(k as int)),
    decreases widths@.len() - k,
{
    let ghost tail: Seq<usize> = widths@.skip(k as int);
    if k == widths.len() {
        let mut out: Vec<Vec<usize>> = Vec::new();
        out.push(Vec::new());
        proof {
            assert(tail =~= Seq::<usize>::empty());
            assert(out@[0]@ =~= corner_at(tail, 0));
        }
        out
    } else {
        let rest = corners_from(widths, k + 1);
        let ghost sub: Seq<usize> = widths@.skip(k as int + 1);
        let ghost l: int = shape_prod(sub);
        proof {
            assert(tail.drop_first() =~= sub);
            assert(tail.first() == widths@[k as int]);
            assert(shape_prod(tail) == tail.first() * shape_prod(sub));
        }
        let w = widths[k];
        let mut out: Vec<Vec<usize>> = Vec::new();
        let mut v: usize = 0;
        while v < w
            invariant
                k < widths@.len(),
                v <= w,
                w == widths@[k as int],
                tail == widths@.skip(k as int),
                sub == widths@.skip(k as int + 1),
                l == shape_prod(sub),
                tail.first() == w,
                tail.drop_first() == sub,
                shape_prod(tail) == w * l,
                rest@.len() == l,
                forall|t: int| 0 <= t < l ==> (#[trigger] rest@[t])@ == corner_at(sub, t),
                forall|t: int| 0 <= t < l ==> in_box((#[trigger] rest@[t])@, sub),
                out@.len() == v * l,
                forall|t: int| 0 <= t < out@.len() ==> (#[trigger] out@[t])@ == corner_at(tail, t),
                forall|t: int| 0 <= t < out@.len() ==> in_box((#[trigger] out@[t])@, tail),
            decreases w - v,
        {
            let mut j: usize = 0;
            while j < rest.len()
                invariant
                    k < widths@.len(),
                    v < w,
                    w == widths@[k as int],
                    tail == widths@.skip(k as int),
                    sub == widths@.skip(k as int + 1),
                    l == shape_prod(sub),
                    tail.first() == w,
                    tail.drop_first() == sub,
                    shape_prod(tail) == w * l,
                    rest@.len() == l,
                    j <= l,
                    forall|t: int| 0 <= t < l ==> (#[trigger] rest@[t])@ == corner_at(sub, t),
                    forall|t: int| 0 <= t < l ==> in_box((#[trigger] rest@[t])@, sub),
                    out@.len() == v * l + j,
                    forall|t: int| 0 <= t < out@.len() ==> (#[trigger] out@[t])@ == corner_at(
                        tail,
                        t,
                    ),
                    forall|t: int| 0 <= t < out@.len() ==> in_box((#[trigger] out@[t])@, tail),
                decreases l - j,
            {
                let rj = &rest[j];
                let mut tup: Vec<usize> = Vec::new();
                tup.push(v);
                let mut i2: usize = 0;
                while i2 < rj.len()
                    invariant
                        i2 <= rj@.len(),
                        tup@ == seq![v as usize] + rj@.take(i2 as int),
                    decreases rj@.len() - i2,
                {
                    let e = rj[i2];
                    tup.push(e);
                    proof {
                        assert(seq![v as usize] + rj@.take(i2 as int + 1) =~= (seq![v as usize]
                            + rj@.take(i2 as int)).push(e));
                    }
                    i2 = i2 + 1;
                }
                proof {
                    assert(rj@.take(rj@.len() as int) =~= rj@);
                    let t: int = v as int * l + j as int;
                    lemma_fundamental_div_mod_converse(t, l, v as int, j as int);
                    assert(corner_at(tail, t) == seq![(t / l) as usize] + corner_at(
                        tail.drop_first(),
                        t % l,
                    ));
                    assert(tup@ =~= corner_at(tail, t));
                    assert(in_box(tup@, tail)) by {
                        assert(forall|i: int| 0 <= i < sub.len() ==> rj@[i] == tail.drop_first()[
                        i] ==> true);
                        assert forall|i: int| 0 <= i < tup@.len() implies #[trigger] tup@[i]
                            < tail[i] by {
                            if i == 0 {
                            } else {
                                assert(tup@[i] == rj@[i - 1]);
                                assert(rj@[i - 1] < sub[i - 1]);
                                assert(tail[i] == sub[i - 1]);
                            }
                        }
                    }
                    assert(out@.len() + 1 == v as int * l + (j as int + 1));
                }
                out.push(tup);
                j = j + 1;
            }
            proof {
                assert(v as int * l + l == (v as int + 1) * l) by (nonlinear_arith);
            }
            v = v + 1;
        }
        proof {
            if l == 0 {
                assert(w as int * 0 == 0) by (nonlinear_arith);
            }
            assert(out@.len() == w * l);
        }
        out
    }
}

/// The `k`-th internal edge of the lattice enumeration: the edges of axis 0
/// come first, then axis 1, and so on; within one axis the base corners run
/// in row-major order. Yields the base corner and the edge's axis.
pub open spec fn edge_at_from(shape: Seq<usize>, d: int, k: int) -> (Seq<usize>, int)
    decreases shape.len() - d,
{
    if d < 0 || d >= shape.len() {
        (Seq::empty(), d)
    } else {
        let cnt = shape_prod(reduced(shape, d));
        if k < cnt {
            (corner_at(reduced(shape, d), k), d)
        } else {
            edge_at_from(shape, d + 1, k - cnt)
        }
    }
}

/// The base corner and axis of edge `k` of the lattice.
pub open spec fn edge_at(shape: Seq<usize>, k: int) -> (Seq<usize>, int) {
    edge_at_from(shape, 0, k)
}

/// A box never has a negative number of corners.
proof fn lemma_shape_prod_nonneg(s: Seq<usize>)
    ensures
        0 <= shape_prod(s),
    decreases s.len(),
{
    if s.len() == 0 {
    } else {
        lemma_shape_prod_nonneg(s.drop_first());
        assert(0 <= s.first() * shape_prod(s.drop_first())) by (nonlinear_arith)
            requires 0 <= s.first() && 0 <= shape_prod(s.drop_first());
    }
}

/// The running edge count grows with the axis.
proof fn lemma_edge_count_upto_mono(shape: Seq<usize>, a: int, b: int)
    requires
        a <= b,
    ensures
        edge_count_upto(shape, a) <= edge_count_upto(shape, b),
    decreases b - a,
{
    if a < b {
        lemma_edge_count_upto_mono(shape, a, b - 1);
        if b - 1 >= 0 {
            lemma_shape_prod_nonneg(reduced(shape, b - 1));
        }
    }
}

/// Position `edge_count_upto(shape, d) + t` of the edge enumeration, taken
/// from axis `j` on, is corner `t` of axis `d`.
proof fn lemma_edge_at_from_block(shape: Seq<usize>, j: int, d: int, t: int)
    requires
        0 <= j <= d < shape.len(),
        0 <= t < shape_prod(reduced(shape, d)),
    ensures
        edge_at_from(shape, j, edge_count_upto(shape, d) - edge_count_upto(shape, j) + t) == (
        corner_at(reduced(shape, d), t), d),
    decreases d - j,
{
    let k = edge_count_upto(shape, d) - edge_count_upto(shape, j) + t;
    if j == d {
        assert(k == t);
    } else {
        let cnt = shape_prod(reduced(shape, j));
        lemma_edge_count_upto_mono(shape, j + 1, d);
        assert(edge_count_upto(shape, j + 1) == edge_count_upto(shape, j) + cnt);
        assert(k >= cnt);
        lemma_edge_at_from_block(shape, j + 1, d, t);
        assert(k - cnt == edge_count_upto(shape, d) - edge_count_upto(shape, j + 1) + t);
    }
}

/// The edge pushed while visiting axis `d` and corner `t` stands at position
/// `edge_count_upto(shape, d) + t` of the enumeration.
proof fn lemma_edge_at_block(shape: Seq<usize>, d: int, t: int)
    requires
        0 <= d < shape.len(),
        0 <= t < shape_prod(reduced(shape, d)),
    ensures
        edge_at(shape, edge_count_upto(shape, d) + t) == (corner_at(reduced(shape, d), t), d),
{
    lemma_edge_at_from_block(shape, 0, d, t);
}

/// Projects every internal edge of the lattice: for each corner and each axis
/// whose +1 neighbor is still inside the shape, one ready-to-draw segment
/// `(projected corner, projected neighbor)`. The result holds exactly
/// `edge_count(shape)` segments; segment `k` is the image of edge
/// `edge_at(shape, k)`.
pub fn compute_n_grid(proj: &AxisProjection, shape: &Vec<usize>) -> (r: Result<
    Vec<(Pt3, Pt3)>,
    VisError,
>)
    requires
        proj.wf(),
        shape_wf(shape@),
        shape_sizes_ok(shape@),
    ensures
        r is Ok <==> shape@.len() == proj.spec_dims(),
        r matches Ok(v) ==> v@.len() == edge_count(shape@),
        r matches Ok(v) ==> forall|s: int|
            0 <= s < v@.len() ==> is_projected_edge(*proj, shape@, #[trigger] v@[s]),
        r matches Ok(v) ==> forall|k: int|
            0 <= k < v@.len() ==> {
                let e = edge_at(shape@, k);
                let seg = #[trigger] v@[k];
                &&& seg.0.x as int == proj.proj_x_of(scaled(e.0))
                &&& seg.0.y as int == proj.proj_y_of(scaled(e.0))
                &&& seg.0.z as int == proj.proj_z_of(scaled(e.0))
                &&& seg.1.x as int == proj.proj_x_of(bumped(e.0, e.1))
                &&& seg.1.y as int == proj.proj_y_of(bumped(e.0, e.1))
                &&& seg.1.z as int == proj.proj_z_of(bumped(e.0, e.1))
            },
        r matches Err(e) ==> e == VisError::DimensionMismatch,
{
    if shape.len() != proj.dims() {
        return Err(VisError::DimensionMismatch);
    }
    let dims = shape.len();
    let mut out: Vec<(Pt3, Pt3)> = Vec::new();
    let mut d: usize = 0;
    while d < dims
        invariant
            proj.wf(),
            shape_wf(shape@),
            shape_sizes_ok(shape@),
            dims == shape@.len(),
            shape@.len() == proj.spec_dims(),
            d <= dims,
            out@.len() == edge_count_upto(shape@, d as int),
            forall|s: int|
                0 <= s < out@.len() ==> is_projected_edge(*proj, shape@, #[trigger] out@[s]),
            forall|k: int|
                0 <= k < out@.len() ==> {
                    let e = edge_at(shape@, k);
                    let seg = #[trigger] out@[k];
                    &&& seg.0.x as int == proj.proj_x_of(scaled(e.0))
                    &&& seg.0.y as int == proj.proj_y_of(scaled(e.0))
                    &&& seg.0.z as int == proj.proj_z_of(scaled(e.0))
                    &&& seg.1.x as int == proj.proj_x_of(bumped(e.0, e.1))
                    &&& seg.1.y as int == proj.proj_y_of(bumped(e.0, e.1))
                    &&& seg.1.z as int == proj.proj_z_of(bumped(e.0, e.1))
                },
        decreases dims - d,
    {
        let mut red: Vec<usize> = Vec::new();
        let mut i: usize = 0;
        while i < dims
            invariant
                dims == shape@.len(),
                d < dims,
                shape_wf(shape@),
                i <= dims,
                red@.len() == i,
                forall|q: int| 0 <= q < i ==> #[trigger] red@[q] == reduced(shape@, d as int)[q],
            decreases dims - i,
        {
            if i == d {
                red.push(shape[i] - 1);
            } else {
                red.push(shape[i]);
            }
            i = i + 1;
        }
        proof {
            assert(red@ =~= reduced(shape@, d as int));
        }
        let base = corners(&red);
        let ghost n_base: int = shape_prod(reduced(shape@, d as int));
        let mut t: usize = 0;
        while t < base.len()
            invariant
                proj.wf(),
                shape_wf(shape@),
                shape_sizes_ok(shape@),
                dims == shape@.len(),
                shape@.len() == proj.spec_dims(),
                d < dims,
                red@ == reduced(shape@, d as int),
                base@.len() == n_base,
                n_base == shape_prod(reduced(shape@, d as int)),
                forall|q: int| 0 <= q < n_base ==> in_box((#[trigger] base@[q])@, red@),
                forall|q: int| 0 <= q < n_base ==> (#[trigger] base@[q])@ == corner_at(red@, q),
                t <= n_base,
                out@.len() == edge_count_upto(shape@, d as int) + t,
                forall|s: int|
                    0 <= s < out@.len() ==> is_projected_edge(*proj, shape@, #[trigger] out@[s]),
                forall|k: int|
                    0 <= k < out@.len() ==> {
                        let e = edge_at(shape@, k);
                        let seg = #[trigger] out@[k];
                        &&& seg.0.x as int == proj.proj_x_of(scaled(e.0))
                        &&& seg.0.y as int == proj.proj_y_of(scaled(e.0))
                        &&& seg.0.z as int == proj.proj_z_of(scaled(e.0))
                        &&& seg.1.x as int == proj.proj_x_of(bumped(e.0, e.1))
                        &&& seg.1.y as int == proj.proj_y_of(bumped(e.0, e.1))
                        &&& seg.1.z as int == proj.proj_z_of(bumped(e.0, e.1))
                    },
            decreases n_base - t,
        {
            let c = &base[t];
            let ghost cs: Seq<usize> = c@;
            let mut pos: Vec<i64> = Vec::new();
            let mut i: usize = 0;
            while i < dims
                invariant
                    dims == shape@.len(),
                    cs == c@,
                    c@.len() == dims,
                    shape_sizes_ok(shape@),
                    shape_wf(shape@),
                    red@ == reduced(shape@, d as int),
                    d < dims,
                    in_box(c@, red@),
                    i <= dims,
                    pos@.len() == i,
                    forall|q: int| 0 <= q < i ==> #[trigger] pos@[q] == cs[q] * SCALE,
                decreases dims - i,
            {
                proof {
                    assert(cs[i as int] < red@[i as int]);
                    assert(red@[i as int] <= shape@[i as int]);
                    assert(cs[i as int] * SCALE <= 8388608 * 65536) by (nonlinear_arith)
                        requires 0 <= cs[i as int] <= 8388608 && SCALE == 65536;
                    assert(0 <= cs[i as int] * SCALE) by (nonlinear_arith)
                        requires 0 <= cs[i as int] && SCALE == 65536;
                }
                let e: i64 = (c[i] as i64) * SCALE;
                pos.push(e);
                i = i + 1;
            }
            proof {
                assert(int_view(pos@) =~= scaled(cs));
                assert forall|q: int| 0 <= q < pos@.len() implies -POS_BOUND <= #[trigger] int_view(
                    pos@,
                )[q] <= POS_BOUND by {
                    assert(0 <= cs[q] * SCALE <= 8388608 * 65536) by (nonlinear_arith)
                        requires 0 <= cs[q] <= 8388608 && SCALE == 65536;
                }
            }
            let base_pt = proj.project_pt(&pos);
            proof {
                assert(cs[d as int] < red@[d as int]);
                assert(red@[d as int] == shape@[d as int] - 1);
                assert((cs[d as int] + 1) * SCALE <= 8388608 * 65536) by (nonlinear_arith)
                    requires 0 <= cs[d as int] + 1 <= 8388608 && SCALE == 65536;
                assert(0 <= (cs[d as int] + 1) * SCALE) by (nonlinear_arith)
                    requires 0 <= cs[d as int] && SCALE == 65536;
                assert((cs[d as int] + 1) * SCALE == cs[d as int] * SCALE + SCALE)
                    by (nonlinear_arith);
            }
            let bump: i64 = pos[d] + SCALE;
            pos.set(d, bump);
            proof {
                assert(int_view(pos@) =~= bumped(cs, d as int));
                assert(ints_bounded(int_view(pos@)));
            }
            let nb_pt = proj.project_pt(&pos);
            proof {
                let seg = (base_pt, nb_pt);
                assert(in_box(cs, shape@)) by {
                    assert forall|q: int| 0 <= q < cs.len() implies #[trigger] cs[q]
                        < shape@[q] by {
                        assert(cs[q] < red@[q]);
                        assert(red@[q] <= shape@[q]);
                    }
                }
                assert(cs[d as int] + 1 < shape@[d as int]);
                assert(is_projected_edge(*proj, shape@, seg));
                lemma_edge_at_block(shape@, d as int, t as int);
                assert(edge_at(shape@, out@.len() as int) == (cs, d as int));
            }
            out.push((base_pt, nb_pt));
            t = t + 1;
        }
        d = d + 1;
    }
    Ok(out)
}

/// The integer center cell of the lattice: half the width on every axis,
/// where a scripted perturbation is applied.
pub fn lattice_center(shape: &Vec<usize>) -> (r: Vec<usize>)
    ensures
        r@.len() == shape@.len(),
        forall|i: int| 0 <= i < r@.len() ==> #[trigger] r@[i] == shape@[i] / 2,
{
    let mut out: Vec<usize> = Vec::new();
    let mut i: usize = 0;
    while i < shape.len()
        invariant
            i <= shape@.len(),
            out@.len() == i,
            forall|q: int| 0 <= q < i ==> #[trigger] out@[q] == shape@[q] / 2,
        decreases shape@.len() - i,
    {
        let e = shape[i] / 2;
        out.push(e);
        i = i + 1;
    }
    out
}

} // verus!
