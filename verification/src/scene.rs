use vstd::prelude::*;
use crate::cloud::{cloud_within, random_pcld_uniform, PointCloud};
use crate::geom::{
    int_view, ints_bounded, norm_sq, well_scaled, Pt3, VisError, MAX_DIMS, MAX_WIDTH, SCALE,
    SCALE_SQ,
};
use crate::lattice::{
    bumped, compute_n_grid, edge_at, edge_count, is_projected_edge, scaled, shape_sizes_ok,
    shape_wf,
};
use crate::projection::{canonical_axis, tetra_axis, AxisProjection, DIR_NORM_TOL};

verus! {

/// Everything derived from one lattice configuration: the shape, the basis
/// projection, the projected grid wireframe, and a freshly seeded point
/// cloud. A reconfiguration builds a whole new scene rather than mutating
/// parts of one.
pub struct Scene {
    /// Per-axis widths, all equal to the configured width.
    pub shape: Vec<usize>,
    /// The axis-basis projection for this dimensionality.
    pub proj: AxisProjection,
    /// The projected internal edges of the lattice.
    pub grid: Vec<(Pt3, Pt3)>,
    /// The seeded point cloud.
    pub pcld: PointCloud,
}

impl Scene {
    /// Builds the scene for a cubic lattice of `dims` axes of width `width`,
    /// seeding `n_points` cloud points.
    pub fn from_dims(
        dims: usize,
        width: usize,
        n_points: usize,
        rng: &mut rand::rngs::StdRng,
    ) -> (r: Scene)
        requires
            dims <= MAX_DIMS,
            2 <= width <= MAX_WIDTH,
        ensures
            r.shape@.len() == dims,
            forall|i: int| 0 <= i < dims ==> #[trigger] r.shape@[i] == width,
            r.proj.wf(),
            r.proj.spec_dims() == dims,
            forall|i: int| 0 <= i < dims ==> well_scaled(#[trigger] r.proj.axes_view()[i]),
            forall|i: int|
                0 <= i < dims ==> SCALE_SQ - DIR_NORM_TOL <= norm_sq(
                    #[trigger] r.proj.axes_view()[i],
                ) <= SCALE_SQ + DIR_NORM_TOL,
            dims <= 3 ==> forall|i: int|
                0 <= i < dims ==> r.proj.axes_view()[i] == canonical_axis(i),
            dims == 4 ==> forall|i: int| 0 <= i < dims ==> r.proj.axes_view()[i] == tetra_axis(i),
            r.grid@.len() == edge_count(r.shape@),
            forall|s: int|
                0 <= s < r.grid@.len() ==> is_projected_edge(r.proj, r.shape@, #[trigger] r.grid@[s]),
            forall|k: int|
                0 <= k < r.grid@.len() ==> {
                    let e = edge_at(r.shape@, k);
                    let seg = #[trigger] r.grid@[k];
                    &&& seg.0.x as int == r.proj.proj_x_of(scaled(e.0))
                    &&& seg.0.y as int == r.proj.proj_y_of(scaled(e.0))
                    &&& seg.0.z as int == r.proj.proj_z_of(scaled(e.0))
                    &&& seg.1.x as int == r.proj.proj_x_of(bumped(e.0, e.1))
                    &&& seg.1.y as int == r.proj.proj_y_of(bumped(e.0, e.1))
                    &&& seg.1.z as int == r.proj.proj_z_of(bumped(e.0, e.1))
                },
            r.pcld.0@.len() == n_points,
            forall|p: int| 0 <= p < n_points ==> (#[trigger] r.pcld.0@[p])@.len() == dims,
            cloud_within(r.pcld.0@, r.shape@, 0, SCALE as int),
    {
        let mut shape: Vec<usize> = Vec::new();
        let mut i: usize = 0;
        while i < dims
            invariant
                i <= dims,
                shape@.len() == i,
                forall|q: int| 0 <= q < i ==> #[trigger] shape@[q] == width,
            decreases dims - i,
        {
            shape.push(width);
            i = i + 1;
        }
        let proj = AxisProjection::new(dims, rng);
        let grid = match compute_n_grid(&proj, &shape) {
            Ok(g) => g,
            Err(_) => {
                proof {
                    assert(false);
                }
                Vec::new()
            },
        };
        let pcld = random_pcld_uniform(n_points, &shape, rng);
        Scene { shape, proj, grid, pcld }
    }
}

/// Projects every point of the cloud to 3-space, in order. Reports a
/// dimension mismatch if any point's coordinate count differs from the
/// basis's dimensionality, rather than projecting a truncation.
pub fn project_points(proj: &AxisProjection, pcld: &PointCloud) -> (r: Result<Vec<Pt3>, VisError>)
    requires
        proj.wf(),
        forall|p: int| 0 <= p < pcld.0@.len() ==> ints_bounded(int_view((#[trigger] pcld.0@[p])@)),
    ensures
        r is Ok <==> forall|p: int|
            0 <= p < pcld.0@.len() ==> (#[trigger] pcld.0@[p])@.len() == proj.spec_dims(),
        r matches Ok(v) ==> v@.len() == pcld.0@.len() && forall|p: int|
            0 <= p < v@.len() ==> {
                let q = #[trigger] v@[p];
                let pos = int_view(pcld.0@[p]@);
                &&& q.x as int == proj.proj_x_of(pos)
                &&& q.y as int == proj.proj_y_of(pos)
                &&& q.z as int == proj.proj_z_of(pos)
            },
        r matches Err(e) ==> e == VisError::DimensionMismatch,
{
    let mut out: Vec<Pt3> = Vec::new();
    let n = pcld.0.len();
    let mut p: usize = 0;
    while p < n
        invariant
            proj.wf(),
            forall|q: int|
                0 <= q < pcld.0@.len() ==> ints_bounded(int_view((#[trigger] pcld.0@[q])@)),
            n == pcld.0@.len(),
            p <= n,
            out@.len() == p,
            forall|q: int| 0 <= q < p ==> (#[trigger] pcld.0@[q])@.len() == proj.spec_dims(),
            forall|q: int|
                0 <= q < p ==> {
                    let r2 = #[trigger] out@[q];
                    let pos = int_view(pcld.0@[q]@);
                    &&& r2.x as int == proj.proj_x_of(pos)
                    &&& r2.y as int == proj.proj_y_of(pos)
                    &&& r2.z as int == proj.proj_z_of(pos)
                },
        decreases n - p,
    {
        let row = &pcld.0[p];
        if row.len() != proj.dims() {
            return Err(VisError::DimensionMismatch);
        }
        let q = proj.project_pt(row);
        out.push(q);
        p = p + 1;
    }
    Ok(out)
}

} // verus!
