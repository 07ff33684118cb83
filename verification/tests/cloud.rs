use flowviz::cloud::{random_pcld_uniform, PointCloud, TrailTracker};
use flowviz::geom::{Pt3, SCALE};
use flowviz::projection::AxisProjection;
use flowviz::scene::{project_points, Scene};
use rand::SeedableRng;

fn rng_from(seed: u64) -> rand::rngs::StdRng {
    rand::rngs::StdRng::seed_from_u64(seed)
}

#[test]
fn seed_respects_margin() {
    let mut rng = rng_from(1);
    let shape = vec![5, 5, 5];
    let margin = SCALE / 4;
    let cloud = PointCloud::seed(50, &shape, margin, &mut rng);
    assert_eq!(cloud.0.len(), 50);
    for p in &cloud.0 {
        assert_eq!(p.len(), 3);
        for (i, &c) in p.iter().enumerate() {
            assert!(margin <= c && c < shape[i] as i64 * SCALE - margin);
        }
    }
}

#[test]
fn seed_no_margin_fills_volume() {
    // dims = 2, widths [4, 4], margin 0: every coordinate lies in [0, 4).
    let mut rng = rng_from(2);
    let shape = vec![4, 4];
    let cloud = PointCloud::seed(100, &shape, 0, &mut rng);
    assert_eq!(cloud.0.len(), 100);
    for p in &cloud.0 {
        for &c in p {
            assert!(0 <= c && c < 4 * SCALE);
            let world = c as f32 / SCALE as f32;
            assert!((0.0..4.0).contains(&world));
        }
    }
}

#[test]
fn random_pcld_uniform_stays_under_width_minus_one() {
    let mut rng = rng_from(3);
    let volume = vec![4, 6];
    let cloud = random_pcld_uniform(200, &volume, &mut rng);
    assert_eq!(cloud.0.len(), 200);
    for p in &cloud.0 {
        for (i, &c) in p.iter().enumerate() {
            assert!(0 <= c && c < (volume[i] as i64 - 1) * SCALE);
        }
    }
}

#[test]
fn trail_pairs_by_index() {
    let prev = vec![Pt3 { x: 0, y: 0, z: 0 }, Pt3 { x: 1, y: 2, z: 3 }];
    let current = vec![Pt3 { x: 5, y: 5, z: 5 }, Pt3 { x: 6, y: 7, z: 8 }];
    let mut tracker: TrailTracker<Pt3> = TrailTracker::new();
    assert_eq!(tracker.segments(&current).len(), 0);
    tracker.update(prev.clone(), false);
    let segs = tracker.segments(&current);
    assert_eq!(segs.len(), 2);
    for i in 0..2 {
        assert_eq!(segs[i], (prev[i], current[i]));
    }
}

#[test]
fn trail_dropped_on_count_change() {
    let prev = vec![Pt3 { x: 0, y: 0, z: 0 }, Pt3 { x: 1, y: 1, z: 1 }];
    let current = vec![Pt3 { x: 5, y: 5, z: 5 }];
    let mut tracker: TrailTracker<Pt3> = TrailTracker::new();
    tracker.update(prev, false);
    assert_eq!(tracker.segments(&current).len(), 0);
}

#[test]
fn trail_frozen_while_paused() {
    let first = vec![Pt3 { x: 1, y: 0, z: 0 }];
    let second = vec![Pt3 { x: 2, y: 0, z: 0 }];
    let third = vec![Pt3 { x: 3, y: 0, z: 0 }];
    let mut tracker: TrailTracker<Pt3> = TrailTracker::new();
    tracker.update(first.clone(), false);
    // Paused: the stored set must not advance.
    tracker.update(second.clone(), true);
    let segs = tracker.segments(&third);
    assert_eq!(segs, vec![(first[0], third[0])]);
    // Unpaused: it advances.
    tracker.update(third.clone(), false);
    let segs2 = tracker.segments(&second);
    assert_eq!(segs2, vec![(third[0], second[0])]);
    tracker.clear();
    assert_eq!(tracker.segments(&second).len(), 0);
}

#[test]
fn scene_from_dims_builds_consistent_parts() {
    let mut rng = rng_from(7);
    let scene = Scene::from_dims(4, 4, 50, &mut rng);
    assert_eq!(scene.shape, vec![4, 4, 4, 4]);
    assert_eq!(scene.proj.dims(), 4);
    // Edges of a 4^4 lattice: 4 axes, each 3 * 4^3 = 192.
    assert_eq!(scene.grid.len(), 4 * 192);
    assert_eq!(scene.pcld.0.len(), 50);
    for p in &scene.pcld.0 {
        assert_eq!(p.len(), 4);
        for &c in p {
            assert!(0 <= c && c < 3 * SCALE);
        }
    }
}

#[test]
fn project_points_projects_each_row() {
    let mut rng = rng_from(8);
    let proj = AxisProjection::new(2, &mut rng);
    let cloud = PointCloud(vec![vec![SCALE, 0], vec![0, 2 * SCALE]]);
    let pts = project_points(&proj, &cloud).unwrap();
    assert_eq!(
        pts,
        vec![
            Pt3 { x: SCALE * SCALE, y: 0, z: 0 },
            Pt3 { x: 0, y: 2 * SCALE * SCALE, z: 0 },
        ]
    );
    let bad = PointCloud(vec![vec![SCALE, 0], vec![0]]);
    assert!(project_points(&proj, &bad).is_err());
}

#[test]
fn seeded_coordinates_vary() {
    // A degenerate generator that always returned the range's low end would
    // make every coordinate equal; a real draw spreads them out.
    let mut rng = rng_from(10);
    let cloud = PointCloud::seed(100, &vec![8, 8], 0, &mut rng);
    let first = cloud.0[0][0];
    assert!(cloud.0.iter().flatten().any(|&c| c != first));
}

#[test]
fn scenario_two_frames_of_trails() {
    // dims = 2, widths [4, 4], margin 0: seed 100 points, advect them, and
    // pair trail segments by index across the two frames.
    let mut rng = rng_from(11);
    let shape = vec![4, 4];
    let proj = AxisProjection::new(2, &mut rng);
    let mut pcld = PointCloud::seed(100, &shape, 0, &mut rng);
    let frame1 = project_points(&proj, &pcld).unwrap();
    let mut tracker: TrailTracker<Pt3> = TrailTracker::new();
    assert_eq!(tracker.segments(&frame1).len(), 0);
    tracker.update(frame1.clone(), false);

    // A uniform drift keeps every coordinate inside the volume.
    for row in pcld.0.iter_mut() {
        for c in row.iter_mut() {
            *c = (*c - SCALE / 16).max(0);
        }
    }
    let frame2 = project_points(&proj, &pcld).unwrap();
    let segs = tracker.segments(&frame2);
    assert_eq!(segs.len(), 100);
    for i in 0..100 {
        assert_eq!(segs[i], (frame1[i], frame2[i]));
    }

    // A changed point count between frames yields zero segments.
    tracker.update(frame2, false);
    let mut shrunk = pcld;
    shrunk.0.pop();
    let frame3 = project_points(&proj, &shrunk).unwrap();
    assert_eq!(tracker.segments(&frame3).len(), 0);
}
