use flowviz::geom::{Pt3, VisError, SCALE};
use flowviz::projection::{AxisProjection, Projection};
use rand::{Rng, SeedableRng};

fn rng_from(seed: u64) -> rand::rngs::StdRng {
    rand::rngs::StdRng::seed_from_u64(seed)
}

#[test]
fn project_exact_2d() {
    let mut rng = rng_from(1);
    let proj = AxisProjection::new(2, &mut rng);
    assert_eq!(proj.dims(), 2);
    // World position (1.0, 2.0): one unit along x, two along y.
    let pos = vec![SCALE, 2 * SCALE];
    let p = proj.project(&pos).unwrap();
    assert_eq!(p, Pt3 { x: SCALE * SCALE, y: 2 * SCALE * SCALE, z: 0 });
}

#[test]
fn project_dimension_mismatch_is_error() {
    let mut rng = rng_from(2);
    let proj = AxisProjection::new(3, &mut rng);
    let pos = vec![SCALE, SCALE];
    assert_eq!(proj.project(&pos), Err(VisError::DimensionMismatch));
    let pos_long = vec![0, 0, 0, 0];
    assert_eq!(proj.project(&pos_long), Err(VisError::DimensionMismatch));
    assert!(proj.project(&vec![0, 0, 0]).is_ok());
}

#[test]
fn project_additive_in_fixed_point() {
    let dims = 5usize;
    let mut rng = rng_from(3);
    let proj = AxisProjection::new(dims, &mut rng);
    let mut vr = rng_from(4);
    for _ in 0..20 {
        let a: Vec<i64> = (0..dims).map(|_| vr.gen_range(-10 * SCALE..10 * SCALE)).collect();
        let b: Vec<i64> = (0..dims).map(|_| vr.gen_range(-10 * SCALE..10 * SCALE)).collect();
        let sum: Vec<i64> = a.iter().zip(&b).map(|(x, y)| x + y).collect();
        let pa = proj.project(&a).unwrap();
        let pb = proj.project(&b).unwrap();
        let ps = proj.project(&sum).unwrap();
        assert_eq!(ps, Pt3 { x: pa.x + pb.x, y: pa.y + pb.y, z: pa.z + pb.z });
    }
}

#[test]
fn project_homogeneous_in_fixed_point() {
    let dims = 6usize;
    let mut rng = rng_from(5);
    let proj = AxisProjection::new(dims, &mut rng);
    let mut vr = rng_from(6);
    for k in [-3i64, 0, 1, 7] {
        let a: Vec<i64> = (0..dims).map(|_| vr.gen_range(-10 * SCALE..10 * SCALE)).collect();
        let ka: Vec<i64> = a.iter().map(|x| k * x).collect();
        let pa = proj.project(&a).unwrap();
        let pk = proj.project(&ka).unwrap();
        assert_eq!(pk, Pt3 { x: k * pa.x, y: k * pa.y, z: k * pa.z });
    }
}

#[test]
fn project_linearity_f32_tolerance() {
    // The fixed-point projection, read back as f32, is linear within float
    // tolerance as well.
    let dims = 5usize;
    let mut rng = rng_from(8);
    let proj = AxisProjection::new(dims, &mut rng);
    let mut vr = rng_from(9);
    let s2 = (SCALE as f32) * (SCALE as f32);
    for _ in 0..10 {
        let a: Vec<i64> = (0..dims).map(|_| vr.gen_range(-4 * SCALE..4 * SCALE)).collect();
        let b: Vec<i64> = (0..dims).map(|_| vr.gen_range(-4 * SCALE..4 * SCALE)).collect();
        let sum: Vec<i64> = a.iter().zip(&b).map(|(x, y)| x + y).collect();
        let pa = proj.project(&a).unwrap();
        let pb = proj.project(&b).unwrap();
        let ps = proj.project(&sum).unwrap();
        let err = ((ps.x - pa.x - pb.x) as f32 / s2).abs() + ((ps.y - pa.y - pb.y) as f32 / s2)
            .abs() + ((ps.z - pa.z - pb.z) as f32 / s2).abs();
        assert!(err < 1e-6);
    }
}

#[test]
fn from_axes_keeps_basis() {
    let axes = vec![
        Pt3 { x: SCALE, y: 0, z: 0 },
        Pt3 { x: 0, y: 0, z: SCALE },
    ];
    let proj = AxisProjection::from_axes(axes);
    // Project (3, 5): picks up x from axis 0 and z from axis 1.
    let p = proj.project(&vec![3 * SCALE, 5 * SCALE]).unwrap();
    assert_eq!(p, Pt3 { x: 3 * SCALE * SCALE, y: 0, z: 5 * SCALE * SCALE });
}
