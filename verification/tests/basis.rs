use flowviz::geom::{Pt3, HALF, SCALE, SCALE_SQ};
use flowviz::projection::{gen_rand_vect, generate_axes, isqrt, DIR_NORM_TOL, TETRA_C};
use rand::SeedableRng;

fn rng_from(seed: u64) -> rand::rngs::StdRng {
    rand::rngs::StdRng::seed_from_u64(seed)
}

fn norm_sq(p: &Pt3) -> i64 {
    p.x * p.x + p.y * p.y + p.z * p.z
}

fn dot(a: &Pt3, b: &Pt3) -> i64 {
    a.x * b.x + a.y * b.y + a.z * b.z
}

#[test]
fn generate_axes_low_dims_are_canonical() {
    let canon = [
        Pt3 { x: SCALE, y: 0, z: 0 },
        Pt3 { x: 0, y: SCALE, z: 0 },
        Pt3 { x: 0, y: 0, z: SCALE },
    ];
    for dims in 0..=3usize {
        let mut rng = rng_from(7);
        let axes = generate_axes(dims, &mut rng);
        assert_eq!(axes.len(), dims);
        for i in 0..dims {
            assert_eq!(axes[i], canon[i]);
            assert_eq!(norm_sq(&axes[i]), SCALE_SQ);
        }
    }
}

#[test]
fn generate_axes_low_dims_unit_norm_f32() {
    let mut rng = rng_from(7);
    let axes = generate_axes(3, &mut rng);
    for a in &axes {
        let s = SCALE as f32;
        let n = ((a.x as f32 / s).powi(2) + (a.y as f32 / s).powi(2) + (a.z as f32 / s).powi(2))
            .sqrt();
        assert!((n - 1.0).abs() < 1e-6);
    }
}

#[test]
fn generate_axes_tetra_regular() {
    let mut rng = rng_from(11);
    let axes = generate_axes(4, &mut rng);
    assert_eq!(axes.len(), 4);
    let n0 = norm_sq(&axes[0]);
    for i in 0..4 {
        assert_eq!(norm_sq(&axes[i]), n0);
        for j in 0..4 {
            if i != j {
                assert_eq!(dot(&axes[i], &axes[j]), -(TETRA_C * TETRA_C));
            }
        }
    }
}

#[test]
fn generate_axes_tetra_unit_norm_f32() {
    let mut rng = rng_from(11);
    let axes = generate_axes(4, &mut rng);
    let s = SCALE as f32;
    let mut angles = Vec::new();
    for i in 0..4 {
        let a = &axes[i];
        let n = ((a.x as f32 / s).powi(2) + (a.y as f32 / s).powi(2) + (a.z as f32 / s).powi(2))
            .sqrt();
        assert!((n - 1.0).abs() < 1e-3);
        for j in 0..4 {
            if i != j {
                let cos = dot(&axes[i], &axes[j]) as f32 / (norm_sq(&axes[i]) as f32);
                angles.push(cos.acos());
            }
        }
    }
    for w in angles.windows(2) {
        assert!((w[0] - w[1]).abs() < 1e-4);
    }
}

#[test]
fn generate_axes_high_dims_bounded_directions() {
    let mut rng = rng_from(23);
    let axes = generate_axes(6, &mut rng);
    assert_eq!(axes.len(), 6);
    for a in &axes {
        assert!(a.x.abs() <= SCALE && a.y.abs() <= SCALE && a.z.abs() <= SCALE);
        let m = a.x.abs().max(a.y.abs()).max(a.z.abs());
        assert!(m >= HALF);
        let n = norm_sq(a);
        assert!(SCALE_SQ - DIR_NORM_TOL <= n && n <= SCALE_SQ + DIR_NORM_TOL);
    }
}

#[test]
fn gen_rand_vect_bounded() {
    let mut rng = rng_from(99);
    for dims in [5usize, 6, 7] {
        for _ in 0..50 {
            let v = gen_rand_vect(&mut rng, dims);
            assert!(v.x.abs() <= SCALE && v.y.abs() <= SCALE && v.z.abs() <= SCALE);
            let m = v.x.abs().max(v.y.abs()).max(v.z.abs());
            assert!(m >= HALF);
            let n = norm_sq(&v);
            assert!(SCALE_SQ - DIR_NORM_TOL <= n && n <= SCALE_SQ + DIR_NORM_TOL);
        }
    }
}

#[test]
fn gen_rand_vect_near_unit_f32() {
    let mut rng = rng_from(123);
    let s = SCALE as f32;
    for _ in 0..50 {
        let v = gen_rand_vect(&mut rng, 5);
        let n = ((v.x as f32 / s).powi(2) + (v.y as f32 / s).powi(2) + (v.z as f32 / s).powi(2))
            .sqrt();
        assert!(n > 0.999 && n < 1.001, "norm {} out of tolerance", n);
    }
}

#[test]
fn isqrt_exact_values() {
    assert_eq!(isqrt(0), 0);
    assert_eq!(isqrt(1), 1);
    assert_eq!(isqrt(15), 3);
    assert_eq!(isqrt(16), 4);
    assert_eq!(isqrt(SCALE_SQ), SCALE);
    assert_eq!(isqrt(SCALE_SQ - 1), SCALE - 1);
    assert_eq!(isqrt(i64::MAX), 3037000499);
}
