use flowviz::geom::{Pt3, SCALE};
use flowviz::projection::AxisProjection;
use flowviz::lattice::{compute_n_grid, corners, lattice_center};
use rand::SeedableRng;

fn rng_from(seed: u64) -> rand::rngs::StdRng {
    rand::rngs::StdRng::seed_from_u64(seed)
}

#[test]
fn corners_enumerates_row_major() {
    let c = corners(&vec![2, 2]);
    assert_eq!(c, vec![vec![0, 0], vec![0, 1], vec![1, 0], vec![1, 1]]);
    let c1 = corners(&vec![3]);
    assert_eq!(c1, vec![vec![0], vec![1], vec![2]]);
    let c0 = corners(&vec![]);
    assert_eq!(c0, vec![Vec::<usize>::new()]);
    let empty = corners(&vec![2, 0, 3]);
    assert_eq!(empty.len(), 0);
}

#[test]
fn edge_count_3x3_is_12() {
    let mut rng = rng_from(1);
    let proj = AxisProjection::new(2, &mut rng);
    let grid = compute_n_grid(&proj, &vec![3, 3]).unwrap();
    assert_eq!(grid.len(), 12);
}

#[test]
fn edge_count_1d_is_w_minus_1() {
    let mut rng = rng_from(2);
    let proj = AxisProjection::new(1, &mut rng);
    for w in 1..=6usize {
        let grid = compute_n_grid(&proj, &vec![w]).unwrap();
        assert_eq!(grid.len(), w - 1);
    }
}

#[test]
fn edge_count_general_formula() {
    let mut rng = rng_from(3);
    let proj = AxisProjection::new(3, &mut rng);
    // shape [2, 3, 4]: edges = 1*3*4 + 2*2*4 + 2*3*3 = 12 + 16 + 18 = 46.
    let grid = compute_n_grid(&proj, &vec![2, 3, 4]).unwrap();
    assert_eq!(grid.len(), 46);
}

#[test]
fn grid_segments_2x2_exact() {
    let mut rng = rng_from(4);
    let proj = AxisProjection::new(2, &mut rng);
    let grid = compute_n_grid(&proj, &vec![2, 2]).unwrap();
    // Four corners, four internal edges; the canonical 2D basis maps a
    // corner (cx, cy) to (cx, cy, 0) in SCALE_SQ units.
    let s2 = SCALE * SCALE;
    let pt = |cx: i64, cy: i64| Pt3 { x: cx * s2, y: cy * s2, z: 0 };
    // Axis 0 first (corner, neighbor), then axis 1, row-major corners.
    assert_eq!(
        grid,
        vec![
            (pt(0, 0), pt(1, 0)),
            (pt(0, 1), pt(1, 1)),
            (pt(0, 0), pt(0, 1)),
            (pt(1, 0), pt(1, 1)),
        ]
    );
}

#[test]
fn grid_dimension_mismatch() {
    let mut rng = rng_from(5);
    let proj = AxisProjection::new(3, &mut rng);
    assert!(compute_n_grid(&proj, &vec![3, 3]).is_err());
}

#[test]
fn lattice_center_halves_widths() {
    assert_eq!(lattice_center(&vec![4, 5, 9]), vec![2, 2, 4]);
    assert_eq!(lattice_center(&vec![1]), vec![0]);
}
