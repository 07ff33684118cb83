use flowviz::geom::{HALF, SCALE};
use flowviz::projection::AxisProjection;
use flowviz::projection::Projection;
use flowviz::sampler::{center_points, selected_axes, staggered_points};
use rand::SeedableRng;

fn rng_from(seed: u64) -> rand::rngs::StdRng {
    rand::rngs::StdRng::seed_from_u64(seed)
}

#[test]
fn center_points_4x4_count_and_positions() {
    let mut rng = rng_from(1);
    let proj = AxisProjection::new(2, &mut rng);
    let centers = center_points(&proj, &vec![4, 4]).unwrap();
    // Base corners 0..=2 on each axis: 9 interior centers.
    assert_eq!(centers.len(), 9);
    // Row-major: first center is (0.5, 0.5), last is (2.5, 2.5).
    assert_eq!(centers[0].0, vec![HALF, HALF]);
    assert_eq!(centers[8].0, vec![2 * SCALE + HALF, 2 * SCALE + HALF]);
}

#[test]
fn center_points_neighbors_in_range() {
    let mut rng = rng_from(2);
    let proj = AxisProjection::new(3, &mut rng);
    let shape = vec![3, 4, 5];
    let centers = center_points(&proj, &shape).unwrap();
    assert_eq!(centers.len(), 2 * 3 * 4);
    for (pos, _) in &centers {
        for (i, &c) in pos.iter().enumerate() {
            let floor = c.div_euclid(SCALE);
            let ceil = floor + 1;
            assert!(floor >= 0);
            assert!((ceil as usize) < shape[i]);
        }
    }
}

#[test]
fn center_points_width_one_is_empty() {
    let mut rng = rng_from(3);
    let proj = AxisProjection::new(2, &mut rng);
    let centers = center_points(&proj, &vec![1, 4]).unwrap();
    assert_eq!(centers.len(), 0);
}

#[test]
fn center_points_projected_matches_position() {
    let mut rng = rng_from(4);
    let proj = AxisProjection::new(2, &mut rng);
    let centers = center_points(&proj, &vec![3, 3]).unwrap();
    for (pos, p) in &centers {
        assert_eq!(proj.project(pos).unwrap(), *p);
    }
}

#[test]
fn staggered_points_positions() {
    let mut rng = rng_from(5);
    let proj = AxisProjection::new(2, &mut rng);
    let pts = staggered_points(&proj, 0, &vec![3, 2]).unwrap();
    assert_eq!(pts.len(), 6);
    // Index (i, j) of the axis-0 array sits at (i, j - 0.5).
    assert_eq!(pts[0].0, vec![0, 0]);
    assert_eq!(pts[1].0, vec![0, 1]);
    assert_eq!(pts[5].0, vec![2, 1]);
    for (idx, p) in &pts {
        let pos: Vec<i64> = idx
            .iter()
            .enumerate()
            .map(|(j, &v)| if j == 0 { v as i64 * SCALE } else { v as i64 * SCALE - HALF })
            .collect();
        assert_eq!(proj.project(&pos).unwrap(), *p);
    }
}

#[test]
fn staggered_points_owning_axis_unshifted() {
    let mut rng = rng_from(6);
    let proj = AxisProjection::new(2, &mut rng);
    let pts = staggered_points(&proj, 1, &vec![2, 2]).unwrap();
    // Index (1, 1) of the axis-1 array sits at (0.5, 1).
    let (idx, p) = &pts[3];
    assert_eq!(*idx, vec![1, 1]);
    let pos = vec![SCALE - HALF, SCALE];
    assert_eq!(proj.project(&pos).unwrap(), *p);
}

#[test]
fn selected_axes_all_or_one() {
    assert_eq!(selected_axes(4, None), vec![0, 1, 2, 3]);
    assert_eq!(selected_axes(4, Some(2)), vec![2]);
    assert_eq!(selected_axes(0, None), Vec::<usize>::new());
}

#[test]
fn sampler_dimension_mismatch_is_error() {
    let mut rng = rng_from(7);
    let proj = AxisProjection::new(3, &mut rng);
    assert!(center_points(&proj, &vec![4, 4]).is_err());
    assert!(staggered_points(&proj, 0, &vec![4, 4]).is_err());
}
