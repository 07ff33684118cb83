use vstd::prelude::*;
use crate::geom::{SCALE};
use crate::lattice::{shape_sizes_ok};
use crate::rng::rng_range_i64;

verus! {

/// A cloud of `N` positions, each a `D`-dimensional fixed-point coordinate.
pub struct PointCloud(pub Vec<Vec<i64>>);

/// Every point of the cloud has `dims` coordinates, each inside
/// `[lo, hi(axis))` where `hi(axis) = shape[axis] * SCALE - lo`.
pub open spec fn cloud_within(
    points: Seq<Vec<i64>>,
    shape: Seq<usize>,
    lo: int,
    shrink: int,
) -> bool {
    forall|p: int, i: int|
        0 <= p < points.len() && 0 <= i < shape.len() ==> lo <= (#[trigger] points[p]@[i])
            < shape[i] * SCALE - shrink
}

impl PointCloud {
    /// Seeds `n` points, each coordinate drawn independently and uniformly
    /// over `[margin, width * SCALE - margin)`, so every point starts inside
    /// the lattice's valid sampling domain.
    pub fn seed(
        n: usize,
        shape: &Vec<usize>,
        margin: i64,
        rng: &mut rand::rngs::StdRng,
    ) -> (r: PointCloud)
        requires
            0 <= margin,
            shape_sizes_ok(shape@),
            forall|i: int|
                0 <= i < shape@.len() ==> 2 * margin < #[trigger] shape@[i] * SCALE,
        ensures
            r.0@.len() == n,
            forall|p: int| 0 <= p < n ==> (#[trigger] r.0@[p])@.len() == shape@.len(),
            cloud_within(r.0@, shape@, margin as int, margin as int),
    {
        let dims = shape.len();
        let mut points: Vec<Vec<i64>> = Vec::new();
        let mut p: usize = 0;
        while p < n
            invariant
                dims == shape@.len(),
                0 <= margin,
                shape_sizes_ok(shape@),
                forall|i: int|
                    0 <= i < shape@.len() ==> 2 * margin < #[trigger] shape@[i] * SCALE,
                p <= n,
                points@.len() == p,
                forall|q: int| 0 <= q < p ==> (#[trigger] points@[q])@.len() == dims,
                cloud_within(points@, shape@, margin as int, margin as int),
            decreases n - p,
        {
            let mut pt: Vec<i64> = Vec::new();
            let mut i: usize = 0;
            while i < dims
                invariant
                    dims == shape@.len(),
                    0 <= margin,
                    shape_sizes_ok(shape@),
                    forall|k: int|
                        0 <= k < shape@.len() ==> 2 * margin < #[trigger] shape@[k] * SCALE,
                    i <= dims,
                    pt@.len() == i,
                    forall|k: int|
                        0 <= k < i ==> margin <= (#[trigger] pt@[k]) < shape@[k] * SCALE - margin,
                decreases dims - i,
            {
                proof {
                    assert(0 <= shape@[i as int] * SCALE <= 8388608 * 65536) by (nonlinear_arith)
                        requires 0 <= shape@[i as int] <= 8388608 && SCALE == 65536;
                }
                let hi: i64 = (shape[i] as i64) * SCALE - margin;
                let c = rng_range_i64(rng, margin, hi);
                pt.push(c);
                i = i + 1;
            }
            points.push(pt);
            p = p + 1;
        }
        PointCloud(points)
    }
}

/// Seeds `n` points uniformly over `[0, (width - 1) * SCALE)` on each axis:
/// the margin-free variant, which stays clear of the top boundary cell.
pub fn random_pcld_uniform(
    n: usize,
    volume: &Vec<usize>,
    rng: &mut rand::rngs::StdRng,
) -> (r: PointCloud)
    requires
        shape_sizes_ok(volume@),
        forall|i: int| 0 <= i < volume@.len() ==> 2 <= #[trigger] volume@[i],
    ensures
        r.0@.len() == n,
        forall|p: int| 0 <= p < n ==> (#[trigger] r.0@[p])@.len() == volume@.len(),
        cloud_within(r.0@, volume@, 0, SCALE as int),
{
    let dims = volume.len();
    let mut points: Vec<Vec<i64>> = Vec::new();
    let mut p: usize = 0;
    while p < n
        invariant
            dims == volume@.len(),
            shape_sizes_ok(volume@),
            forall|i: int| 0 <= i < volume@.len() ==> 2 <= #[trigger] volume@[i],
            p <= n,
            points@.len() == p,
            forall|q: int| 0 <= q < p ==> (#[trigger] points@[q])@.len() == dims,
            cloud_within(points@, volume@, 0, SCALE as int),
        decreases n - p,
    {
        let mut pt: Vec<i64> = Vec::new();
        let mut i: usize = 0;
        while i < dims
            invariant
                dims == volume@.len(),
                shape_sizes_ok(volume@),
                forall|k: int| 0 <= k < volume@.len() ==> 2 <= #[trigger] volume@[k],
                i <= dims,
                pt@.len() == i,
                forall|k: int|
                    0 <= k < i ==> 0 <= (#[trigger] pt@[k]) < volume@[k] * SCALE - SCALE,
            decreases dims - i,
        {
            proof {
                assert(2 * (SCALE as int) <= volume@[i as int] * SCALE <= 8388608 * 65536)
                    by (nonlinear_arith)
                    requires 2 <= volume@[i as int] <= 8388608 && SCALE == 65536;
            }
            let hi: i64 = (volume[i] as i64) * SCALE - SCALE;
            let c = rng_range_i64(rng, 0, hi);
            pt.push(c);
            i = i + 1;
        }
        points.push(pt);
        p = p + 1;
    }
    PointCloud(points)
}

/// Keeps the previous frame's projected point set to draw advection trails.
pub struct TrailTracker<T> {
    /// The projected points of the last unfrozen frame, if any.
    pub last: Option<Vec<T>>,
}

impl<T: Copy> TrailTracker<T> {
    /// Starts with no trail.
    pub fn new() -> (r: Self)
        ensures
            r.last is None,
    {
        TrailTracker { last: None }
    }

    /// Trail segments for the current frame: the previous and current
    /// projected positions paired by index. A point-count mismatch means the
    /// stored set is stale, so no segments are drawn rather than pairing
    /// unrelated points.
    pub fn segments(&self, current: &Vec<T>) -> (r: Vec<(T, T)>)
        ensures
            self.last is None ==> r@.len() == 0,
            self.last is Some && self.last->Some_0@.len() != current@.len() ==> r@.len() == 0,
            self.last is Some && self.last->Some_0@.len() == current@.len() ==> r@.len()
                == current@.len() && forall|i: int|
                0 <= i < r@.len() ==> #[trigger] r@[i] == (self.last->Some_0@[i], current@[i]),
    {
        let mut out: Vec<(T, T)> = Vec::new();
        match &self.last {
            None => out,
            Some(prev) => {
                if prev.len() != current.len() {
                    return out;
                }
                let mut i: usize = 0;
                while i < current.len()
                    invariant
                        self.last matches Some(p) && p@ == prev@,
                        prev@.len() == current@.len(),
                        i <= current@.len(),
                        out@.len() == i,
                        forall|k: int|
                            0 <= k < i ==> #[trigger] out@[k] == (prev@[k], current@[k]),
                    decreases current@.len() - i,
                {
                    let a = prev[i];
                    let b = current[i];
                    out.push((a, b));
                    i = i + 1;
                }
                out
            },
        }
    }

    /// Replaces the stored point set with the current one, unless the view is
    /// frozen: while paused the previously drawn trail persists unchanged.
    pub fn update(&mut self, current: Vec<T>, paused: bool)
        ensures
            paused ==> final(self).last == old(self).last,
            !paused ==> final(self).last == Some(current),
    {
        if !paused {
            self.last = Some(current);
        }
    }

    /// Drops the stored point set, as after a lattice reconfiguration.
    pub fn clear(&mut self)
        ensures
            final(self).last is None,
    {
        self.last = None;
    }
}

} // verus!
