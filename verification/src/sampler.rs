use vstd::prelude::*;
use vstd::arithmetic::div_mod::lemma_fundamental_div_mod_converse;
use crate::geom::{int_view, ints_bounded, Pt3, VisError, HALF, POS_BOUND, SCALE};
use crate::lattice::{corner_at, corners, in_box, shape_prod, shape_sizes_ok, shape_wf};
use crate::projection::AxisProjection;

verus! {

/// Fixed-point position of the cell center with base corner `c`: every
/// coordinate is offset by half a cell.
pub open spec fn center_of(c: Seq<usize>) -> Seq<int> {
    Seq::new(c.len(), |i: int| c[i] * SCALE + HALF)
}

/// The box of base corners whose +0.5-shifted center is strictly interior:
/// every width lowered by one.
pub open spec fn interior_shape(shape: Seq<usize>) -> Seq<usize> {
    Seq::new(shape.len(), |i: int| (shape[i] - 1) as usize)
}

/// Fixed-point position of the staggered sample stored at integer index
/// `idx` of the component array of `axis`: every other axis sits half a cell
/// below its index, the owning axis on it.
pub open spec fn stagger_of(idx: Seq<usize>, axis: int) -> Seq<int> {
    Seq::new(
        idx.len(),
        |j: int|
            if j == axis {
                idx[j] * SCALE
            } else {
                idx[j] * SCALE - HALF
            },
    )
}

/// One interior cell center, ready for sampling: its fixed-point coordinate
/// vector (the position to hand to the field's interpolation) and its
/// projected 3-space image.
pub fn center_points(proj: &AxisProjection, shape: &Vec<usize>) -> (r: Result<
    Vec<(Vec<i64>, Pt3)>,
    VisError,
>)
    requires
        proj.wf(),
        shape_wf(shape@),
        shape_sizes_ok(shape@),
    ensures
        r is Ok <==> shape@.len() == proj.spec_dims(),
        r matches Ok(v) ==> v@.len() == shape_prod(interior_shape(shape@)),
        r matches Ok(v) ==> forall|k: int|
            0 <= k < v@.len() ==> int_view((#[trigger] v@[k]).0@) == center_of(
                corner_at(interior_shape(shape@), k),
            ),
        r matches Ok(v) ==> forall|k: int|
            0 <= k < v@.len() ==> {
                let p = (#[trigger] v@[k]).1;
                let ctr = center_of(corner_at(interior_shape(shape@), k));
                &&& p.x as int == proj.proj_x_of(ctr)
                &&& p.y as int == proj.proj_y_of(ctr)
                &&& p.z as int == proj.proj_z_of(ctr)
            },
        r matches Err(e) ==> e == VisError::DimensionMismatch,
{
    if shape.len() != proj.dims() {
        return Err(VisError::DimensionMismatch);
    }
    let dims = shape.len();
    let mut inner: Vec<usize> = Vec::new();
    let mut i: usize = 0;
    while i < dims
        invariant
            dims == shape@.len(),
            shape_wf(shape@),
            i <= dims,
            inner@.len() == i,
            forall|q: int| 0 <= q < i ==> #[trigger] inner@[q] == interior_shape(shape@)[q],
        decreases dims - i,
    {
        inner.push(shape[i] - 1);
        i = i + 1;
    }
    proof {
        assert(inner@ =~= interior_shape(shape@));
    }
    let base = corners(&inner);
    let ghost n_base: int = shape_prod(interior_shape(shape@));
    let mut out: Vec<(Vec<i64>, Pt3)> = Vec::new();
    let mut t: usize = 0;
    while t < base.len()
        invariant
            proj.wf(),
            shape_wf(shape@),
            shape_sizes_ok(shape@),
            dims == shape@.len(),
            shape@.len() == proj.spec_dims(),
            inner@ == interior_shape(shape@),
            base@.len() == n_base,
            n_base == shape_prod(interior_shape(shape@)),
            forall|q: int| 0 <= q < n_base ==> (#[trigger] base@[q])@ == corner_at(inner@, q),
            forall|q: int| 0 <= q < n_base ==> in_box((#[trigger] base@[q])@, inner@),
            t <= n_base,
            out@.len() == t,
            forall|k: int|
                0 <= k < t ==> int_view((#[trigger] out@[k]).0@) == center_of(
                    corner_at(interior_shape(shape@), k),
                ),
            forall|k: int|
                0 <= k < t ==> {
                    let p = (#[trigger] out@[k]).1;
                    let ctr = center_of(corner_at(interior_shape(shape@), k));
                    &&& p.x as int == proj.proj_x_of(ctr)
                    &&& p.y as int == proj.proj_y_of(ctr)
                    &&& p.z as int == proj.proj_z_of(ctr)
                },
        decreases n_base - t,
    {
        let c = &base[t];
        let ghost cs: Seq<usize> = c@;
        let mut pos: Vec<i64> = Vec::new();
        let mut i: usize = 0;
        while i < dims
            invariant
                dims == shape@.len(),
                cs == c@,
                c@.len() == dims,
                shape_wf(shape@),
                shape_sizes_ok(shape@),
                inner@ == interior_shape(shape@),
                in_box(c@, inner@),
                i <= dims,
                pos@.len() == i,
                forall|q: int| 0 <= q < i ==> #[trigger] pos@[q] == cs[q] * SCALE + HALF,
            decreases dims - i,
        {
            proof {
                assert(cs[i as int] < inner@[i as int]);
                assert(inner@[i as int] <= shape@[i as int]);
                assert(cs[i as int] * SCALE <= 8388608 * 65536) by (nonlinear_arith)
                    requires 0 <= cs[i as int] <= 8388608 && SCALE == 65536;
                assert(0 <= cs[i as int] * SCALE) by (nonlinear_arith)
                    requires 0 <= cs[i as int] && SCALE == 65536;
            }
            let e: i64 = (c[i] as i64) * SCALE + HALF;
            pos.push(e);
            i = i + 1;
        }
        proof {
            assert(int_view(pos@) =~= center_of(cs));
            assert forall|q: int| 0 <= q < pos@.len() implies -POS_BOUND <= #[trigger] int_view(
                pos@,
            )[q] <= POS_BOUND by {
                assert(0 <= cs[q] * SCALE <= 8388608 * 65536) by (nonlinear_arith)
                    requires 0 <= cs[q] <= 8388608 && SCALE == 65536;
            }
        }
        let p = proj.project_pt(&pos);
        out.push((pos, p));
        t = t + 1;
    }
    Ok(out)
}

/// Every interior cell center has both interpolation neighbors inside the
/// field: each coordinate's floor cell is its base corner, at least 0, and
/// the ceiling cell is at most `width - 1`.
pub proof fn lemma_center_interior(shape: Seq<usize>, c: Seq<usize>, i: int)
    requires
        shape_wf(shape),
        in_box(c, interior_shape(shape)),
        0 <= i < c.len(),
    ensures
        center_of(c)[i] / (SCALE as int) == c[i],
        0 <= center_of(c)[i] / (SCALE as int),
        center_of(c)[i] / (SCALE as int) + 1 <= shape[i] - 1,
{
    let p = center_of(c)[i];
    assert(p == c[i] * SCALE + HALF);
    lemma_fundamental_div_mod_converse(p, SCALE as int, c[i] as int, HALF as int);
    assert(c[i] < interior_shape(shape)[i]);
    assert(interior_shape(shape)[i] == shape[i] - 1);
}

/// The integer index tuples of one staggered component array together with
/// the projected position of each sample: index `idx` sits at `idx - 0.5`
/// on every axis but the owning one.
pub fn staggered_points(proj: &AxisProjection, axis: usize, arr_shape: &Vec<usize>) -> (r: Result<
    Vec<(Vec<usize>, Pt3)>,
    VisError,
>)
    requires
        proj.wf(),
        shape_sizes_ok(arr_shape@),
        axis < arr_shape@.len(),
    ensures
        r is Ok <==> arr_shape@.len() == proj.spec_dims(),
        r matches Ok(v) ==> v@.len() == shape_prod(arr_shape@),
        r matches Ok(v) ==> forall|k: int|
            0 <= k < v@.len() ==> (#[trigger] v@[k]).0@ == corner_at(arr_shape@, k),
        r matches Ok(v) ==> forall|k: int|
            0 <= k < v@.len() ==> {
                let p = (#[trigger] v@[k]).1;
                let sp = stagger_of(corner_at(arr_shape@, k), axis as int);
                &&& p.x as int == proj.proj_x_of(sp)
                &&& p.y as int == proj.proj_y_of(sp)
                &&& p.z as int == proj.proj_z_of(sp)
            },
        r matches Err(e) ==> e == VisError::DimensionMismatch,
{
    if arr_shape.len() != proj.dims() {
        return Err(VisError::DimensionMismatch);
    }
    let dims = arr_shape.len();
    let base = corners(arr_shape);
    let ghost n_base: int = shape_prod(arr_shape@);
    let mut out: Vec<(Vec<usize>, Pt3)> = Vec::new();
    let mut t: usize = 0;
    while t < base.len()
        invariant
            proj.wf(),
            shape_sizes_ok(arr_shape@),
            axis < dims,
            dims == arr_shape@.len(),
            arr_shape@.len() == proj.spec_dims(),
            base@.len() == n_base,
            n_base == shape_prod(arr_shape@),
            forall|q: int| 0 <= q < n_base ==> (#[trigger] base@[q])@ == corner_at(arr_shape@, q),
            forall|q: int| 0 <= q < n_base ==> in_box((#[trigger] base@[q])@, arr_shape@),
            t <= n_base,
            out@.len() == t,
            forall|k: int| 0 <= k < t ==> (#[trigger] out@[k]).0@ == corner_at(arr_shape@, k),
            forall|k: int|
                0 <= k < t ==> {
                    let p = (#[trigger] out@[k]).1;
                    let sp = stagger_of(corner_at(arr_shape@, k), axis as int);
                    &&& p.x as int == proj.proj_x_of(sp)
                    &&& p.y as int == proj.proj_y_of(sp)
                    &&& p.z as int == proj.proj_z_of(sp)
                },
        decreases n_base - t,
    {
        let c = &base[t];
        let ghost cs: Seq<usize> = c@;
        let mut pos: Vec<i64> = Vec::new();
        let mut i: usize = 0;
        while i < dims
            invariant
                dims == arr_shape@.len(),
                cs == c@,
                c@.len() == dims,
                axis < dims,
                shape_sizes_ok(arr_shape@),
                in_box(c@, arr_shape@),
                i <= dims,
                pos@.len() == i,
                forall|q: int|
                    0 <= q < i ==> #[trigger] pos@[q] == stagger_of(cs, axis as int)[q],
            decreases dims - i,
        {
            proof {
                assert(cs[i as int] < arr_shape@[i as int]);
                assert(cs[i as int] * SCALE <= 8388608 * 65536) by (nonlinear_arith)
                    requires 0 <= cs[i as int] <= 8388608 && SCALE == 65536;
                assert(0 <= cs[i as int] * SCALE) by (nonlinear_arith)
                    requires 0 <= cs[i as int] && SCALE == 65536;
            }
            let e: i64 = if i == axis {
                (c[i] as i64) * SCALE
            } else {
                (c[i] as i64) * SCALE - HALF
            };
            pos.push(e);
            i = i + 1;
        }
        proof {
            assert(int_view(pos@) =~= stagger_of(cs, axis as int));
            assert forall|q: int| 0 <= q < pos@.len() implies -POS_BOUND <= #[trigger] int_view(
                pos@,
            )[q] <= POS_BOUND by {
                assert(0 <= cs[q] * SCALE <= 8388608 * 65536) by (nonlinear_arith)
                    requires 0 <= cs[q] <= 8388608 && SCALE == 65536;
            }
        }
        let p = proj.project_pt(&pos);
        let mut idx: Vec<usize> = Vec::new();
        let mut i2: usize = 0;
        while i2 < c.len()
            invariant
                cs == c@,
                i2 <= c@.len(),
                idx@ == cs.take(i2 as int),
            decreases c@.len() - i2,
        {
            let e2 = c[i2];
            idx.push(e2);
            proof {
                assert(cs.take(i2 as int + 1) =~= cs.take(i2 as int).push(e2));
            }
            i2 = i2 + 1;
        }
        proof {
            assert(idx@ =~= cs);
        }
        out.push((idx, p));
        t = t + 1;
    }
    Ok(out)
}

/// The axes whose staggered component arrays are to be drawn: all of them,
/// or only the selected one.
pub fn selected_axes(dims: usize, sel: Option<usize>) -> (r: Vec<usize>)
    requires
        sel matches Some(s) ==> s < dims,
    ensures
        sel is None ==> r@.len() == dims && forall|i: int| 0 <= i < dims ==> #[trigger] r@[i] == i,
        sel matches Some(s) ==> r@ == seq![s],
{
    let mut out: Vec<usize> = Vec::new();
    match sel {
        Some(s) => {
            out.push(s);
            proof {
                assert(out@ =~= seq![s]);
            }
        },
        None => {
            let mut i: usize = 0;
            while i < dims
                invariant
                    i <= dims,
                    out@.len() == i,
                    forall|q: int| 0 <= q < i ==> #[trigger] out@[q] == q,
                decreases dims - i,
            {
                out.push(i);
                i = i + 1;
            }
        },
    }
    out
}

} // verus!
