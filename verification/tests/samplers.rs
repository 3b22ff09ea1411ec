//! The four samplers, run with binary64 kernels.

use std::cell::RefCell;
use std::f64::consts::PI;

use point_cloud::binary64::is_positive;
use point_cloud::{torus, unit_ball, unit_circle, unit_sphere_surface, NoiseInterval};
use rand::rngs::StdRng;
use rand::{Rng, SeedableRng};

const TOLERANCE: f64 = 1e-12;

fn decode(points: &[Vec<u64>]) -> Vec<Vec<f64>> {
    points.iter().map(|p| p.iter().map(|c| f64::from_bits(*c)).collect()).collect()
}

fn on_circle(k: usize, m: usize) -> (u64, u64) {
    let theta = k as f64 * 2.0 * PI / m as f64;
    (theta.cos().to_bits(), theta.sin().to_bits())
}

fn direction<R: Rng>(rng: &mut R) -> [f64; 3] {
    let theta = rng.gen_range(0.0..(2.0 * PI));
    let z: f64 = rng.gen_range(-1.0..1.0);
    let r = (1.0 - z * z).sqrt();
    [r * theta.cos(), r * theta.sin(), z]
}

fn on_sphere() -> (u64, u64, u64) {
    let d = direction(&mut rand::thread_rng());
    (d[0].to_bits(), d[1].to_bits(), d[2].to_bits())
}

fn in_ball() -> (u64, u64, u64) {
    let mut rng = rand::thread_rng();
    let d = direction(&mut rng);
    let r = rng.gen::<f64>().cbrt();
    ((r * d[0]).to_bits(), (r * d[1]).to_bits(), (r * d[2]).to_bits())
}

fn torus_point<R: Rng>(rng: &mut R, major: f64, minor: f64) -> (u64, u64, u64) {
    let u = rng.gen_range(0.0..(2.0 * PI));
    let v = rng.gen_range(0.0..(2.0 * PI));
    let cx = (major + minor * v.cos()) * u.cos();
    let cy = (major + minor * v.cos()) * u.sin();
    let cz = minor * v.sin();
    (cx.to_bits(), cy.to_bits(), cz.to_bits())
}

fn on_torus(major: u64, minor: u64) -> (u64, u64, u64) {
    torus_point(&mut rand::thread_rng(), f64::from_bits(major), f64::from_bits(minor))
}

fn perturb(c: u64, lo: u64, hi: u64) -> u64 {
    let draw = rand::thread_rng().gen_range(f64::from_bits(lo)..f64::from_bits(hi));
    (f64::from_bits(c) + draw).to_bits()
}

fn never(_c: u64, _lo: u64, _hi: u64) -> u64 {
    panic!("no noise was asked for")
}

fn interval(lo: f64, hi: f64) -> NoiseInterval {
    NoiseInterval::new(lo.to_bits(), hi.to_bits()).unwrap()
}

fn tube_distance(point: &[f64], major: f64) -> f64 {
    let ring = (point[0] * point[0] + point[1] * point[1]).sqrt() - major;
    (ring * ring + point[2] * point[2]).sqrt()
}

#[test]
fn circle_of_four_points() {
    let cloud = decode(&unit_circle(4, None, on_circle, never));
    let expected = [[1.0, 0.0], [0.0, 1.0], [-1.0, 0.0], [0.0, -1.0]];
    assert_eq!(cloud.len(), 4);
    for (point, want) in cloud.iter().zip(expected.iter()) {
        assert_eq!(point.len(), 2);
        assert!((point[0] - want[0]).abs() < TOLERANCE);
        assert!((point[1] - want[1]).abs() < TOLERANCE);
    }
}

#[test]
fn circle_points_lie_on_the_unit_circle_evenly_spaced() {
    for m in [1usize, 2, 3, 4, 7, 12, 100, 1000] {
        let cloud = decode(&unit_circle(m, None, on_circle, never));
        assert_eq!(cloud.len(), m);
        for point in &cloud {
            assert_eq!(point.len(), 2);
            assert!((point[0] * point[0] + point[1] * point[1] - 1.0).abs() < TOLERANCE);
        }
        let step = 2.0 * PI / m as f64;
        for k in 0..m {
            let here = &cloud[k];
            let there = &cloud[(k + 1) % m];
            // The angle from one point to the next, by cross and dot product.
            let turn = (here[0] * there[1] - here[1] * there[0])
                .atan2(here[0] * there[0] + here[1] * there[1]);
            let turn = if turn < -TOLERANCE { turn + 2.0 * PI } else { turn };
            let want = if m == 1 { 0.0 } else { step };
            assert!((turn - want).abs() < 1e-9, "m = {m}, k = {k}: {turn} for {want}");
        }
    }
}

#[test]
fn circle_point_k_is_the_kernel_at_k_of_m() {
    let asked = RefCell::new(Vec::new());
    let cloud = unit_circle(
        5,
        None,
        |k: usize, m: usize| {
            asked.borrow_mut().push((k, m));
            (k as u64 * 10, m as u64 * 10 + 1)
        },
        never,
    );
    assert_eq!(asked.into_inner(), vec![(0, 5), (1, 5), (2, 5), (3, 5), (4, 5)]);
    assert_eq!(cloud, vec![vec![0, 51], vec![10, 51], vec![20, 51], vec![30, 51], vec![40, 51]]);
}

#[test]
fn circle_without_noise_is_the_same_cloud_every_time() {
    let first = unit_circle(37, None, on_circle, never);
    let second = unit_circle(37, None, on_circle, never);
    assert_eq!(first, second);
}

#[test]
fn sphere_points_lie_on_the_unit_sphere() {
    for m in [1usize, 10, 500] {
        let cloud = decode(&unit_sphere_surface(m, None, on_sphere, never));
        assert_eq!(cloud.len(), m);
        for p in &cloud {
            assert_eq!(p.len(), 3);
            assert!((p[0] * p[0] + p[1] * p[1] + p[2] * p[2] - 1.0).abs() < TOLERANCE);
        }
    }
}

#[test]
fn ball_points_lie_in_the_unit_ball() {
    for m in [1usize, 10, 500] {
        let cloud = decode(&unit_ball(m, None, in_ball, never));
        assert_eq!(cloud.len(), m);
        for p in &cloud {
            assert_eq!(p.len(), 3);
            assert!(p[0] * p[0] + p[1] * p[1] + p[2] * p[2] <= 1.0 + TOLERANCE);
        }
    }
}

#[test]
fn ball_radius_cubed_is_uniform() {
    let n = 20000usize;
    let rng = RefCell::new(StdRng::seed_from_u64(2024));
    let cloud = decode(&unit_ball(
        n,
        None,
        || {
            let mut rng = rng.borrow_mut();
            let d = direction(&mut *rng);
            let r = rng.gen::<f64>().cbrt();
            ((r * d[0]).to_bits(), (r * d[1]).to_bits(), (r * d[2]).to_bits())
        },
        never,
    ));
    let mut cubes: Vec<f64> = cloud
        .iter()
        .map(|p| (p[0] * p[0] + p[1] * p[1] + p[2] * p[2]).sqrt().powi(3))
        .collect();
    cubes.sort_by(|a, b| a.partial_cmp(b).unwrap());
    // Kolmogorov-Smirnov distance to the uniform law on [0, 1].
    let mut distance: f64 = 0.0;
    for (i, value) in cubes.iter().enumerate() {
        let below = i as f64 / n as f64;
        let upto = (i + 1) as f64 / n as f64;
        distance = distance.max((value - below).abs()).max((upto - value).abs());
    }
    assert!(distance < 0.03, "distance {distance}");
}

#[test]
fn torus_of_a_hundred_points() {
    let (major, minor) = (2.0f64, 0.5f64);
    let cloud = decode(&torus(100, major.to_bits(), minor.to_bits(), None, on_torus, never));
    assert_eq!(cloud.len(), 100);
    for p in &cloud {
        assert_eq!(p.len(), 3);
        assert!((tube_distance(p, major) - minor).abs() < TOLERANCE);
    }
}

#[test]
fn torus_points_keep_the_tube_distance() {
    for (major, minor) in [(2.0f64, 0.5f64), (3.0, 1.0), (10.0, 0.001), (1.0, 0.999)] {
        assert!(is_positive(major.to_bits()) && is_positive(minor.to_bits()));
        let cloud = decode(&torus(200, major.to_bits(), minor.to_bits(), None, on_torus, never));
        assert_eq!(cloud.len(), 200);
        for p in &cloud {
            let d = tube_distance(p, major);
            assert!((d * d - minor * minor).abs() < 1e-9, "({major}, {minor}): {d}");
        }
    }
}

#[test]
fn torus_kernel_is_given_the_two_radii() {
    let asked = RefCell::new(Vec::new());
    let (major, minor) = (2.0f64.to_bits(), 0.5f64.to_bits());
    let cloud = torus(
        3,
        major,
        minor,
        None,
        |a: u64, b: u64| {
            asked.borrow_mut().push((a, b));
            (a, b, 7)
        },
        never,
    );
    assert_eq!(asked.into_inner(), vec![(major, minor); 3]);
    assert_eq!(cloud, vec![vec![major, minor, 7]; 3]);
}

#[test]
fn torus_radii_at_or_below_zero_are_not_positive() {
    for bad in [0.0f64, -0.0, -0.5, -2.0, f64::NEG_INFINITY, f64::NAN] {
        assert!(!is_positive(bad.to_bits()), "{bad:?}");
        assert!(!(bad > 0.0));
    }
    for good in [0.5f64, 2.0, f64::MIN_POSITIVE, f64::from_bits(1), f64::MAX, f64::INFINITY] {
        assert!(is_positive(good.to_bits()), "{good:?}");
    }
}

#[test]
fn no_points_means_no_kernel_call() {
    let interval = interval(0.0, 1.0);
    for noise in [None, Some(interval)] {
        let circle = unit_circle(
            0,
            noise,
            |_k: usize, _m: usize| -> (u64, u64) { panic!("called with no point to place") },
            never,
        );
        assert!(circle.is_empty());
        let draw = || -> (u64, u64, u64) { panic!("called with no point to draw") };
        assert!(unit_sphere_surface(0, noise, draw, never).is_empty());
        assert!(unit_ball(0, noise, draw, never).is_empty());
        let ring = |_a: u64, _b: u64| -> (u64, u64, u64) { panic!("called with no point to draw") };
        assert!(torus(0, 2.0f64.to_bits(), 0.5f64.to_bits(), noise, ring, never).is_empty());
    }
}

#[test]
fn noise_moves_each_coordinate_by_a_value_in_the_interval() {
    let (lo, hi) = (0.25f64, 0.5f64);
    let noise = Some(interval(lo, hi));
    let m = 64;
    let base = decode(&unit_circle(m, None, on_circle, never));
    let out = decode(&unit_circle(m, noise, on_circle, perturb));
    assert_eq!(out.len(), m);
    for k in 0..m {
        assert_eq!(out[k].len(), 2);
        for j in 0..2 {
            let moved = out[k][j] - base[k][j];
            assert!(lo - TOLERANCE <= moved && moved < hi + TOLERANCE, "moved by {moved}");
        }
    }
}

#[test]
fn noise_on_drawn_clouds_uses_the_same_base_for_a_fixed_seed() {
    let (lo, hi) = (-0.001f64, 0.001f64);
    let draw_with = |seed: u64, noise: Option<NoiseInterval>| {
        let rng = RefCell::new(StdRng::seed_from_u64(seed));
        decode(&torus(
            50,
            3.0f64.to_bits(),
            1.0f64.to_bits(),
            noise,
            |major: u64, minor: u64| {
                torus_point(&mut *rng.borrow_mut(), f64::from_bits(major), f64::from_bits(minor))
            },
            perturb,
        ))
    };
    let base = draw_with(5, None);
    assert_eq!(base, draw_with(5, None));
    let out = draw_with(5, Some(interval(lo, hi)));
    assert_eq!(out.len(), base.len());
    for k in 0..base.len() {
        assert_eq!(out[k].len(), 3);
        for j in 0..3 {
            let moved = out[k][j] - base[k][j];
            assert!(lo - TOLERANCE <= moved && moved < hi + TOLERANCE, "moved by {moved}");
        }
    }
    assert_ne!(out, base);
}

#[test]
fn sphere_and_ball_take_noise_on_all_three_coordinates() {
    let noise = Some(interval(5.0, 6.0));
    for cloud in [
        decode(&unit_sphere_surface(40, noise, on_sphere, perturb)),
        decode(&unit_ball(40, noise, in_ball, perturb)),
    ] {
        assert_eq!(cloud.len(), 40);
        for p in &cloud {
            assert_eq!(p.len(), 3);
            for c in p {
                // A coordinate between -1 and 1, moved by a value in [5, 6).
                assert!(4.0 <= *c && *c < 7.0);
            }
        }
    }
}
