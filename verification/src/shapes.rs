//! The four samplers: circle, sphere surface, solid ball and torus.
//!
//! A sampler lays out a cloud of `m` points and hands it to the noise step.
//! What one point is, as numbers, is the work of a kernel that the caller
//! passes in: the library holds no binary64 arithmetic and no source of
//! randomness of its own. Each contract says which kernel call every point
//! comes from, and how the result relates to that noise-free cloud.

use vstd::prelude::*;
use crate::binary64::spec_is_positive;
use crate::noise::{add_noise, coordinates, lemma_noise_keeps_shape, perturbed, NoiseInterval};

verus! {

/// Whether `base` is a noise-free circle cloud of `m` points: point `k` is the
/// pair that `on_circle` gives for index `k` of `m`.
pub open spec fn circle_base<K: Fn(usize, usize) -> (u64, u64)>(
    on_circle: K,
    m: usize,
    base: Seq<Seq<u64>>,
) -> bool {
    &&& base.len() == m
    &&& forall|k: int|
        0 <= k < m ==> (#[trigger] base[k]).len() == 2 && call_ensures(
            on_circle,
            (k as usize, m),
            (base[k][0], base[k][1]),
        )
}

/// Whether `base` is a noise-free cloud of `m` points in space, each of them a
/// triple that `draw` gives.
pub open spec fn drawn_base<K: Fn() -> (u64, u64, u64)>(
    draw: K,
    m: usize,
    base: Seq<Seq<u64>>,
) -> bool {
    &&& base.len() == m
    &&& forall|k: int|
        0 <= k < m ==> (#[trigger] base[k]).len() == 3 && call_ensures(
            draw,
            (),
            (base[k][0], base[k][1], base[k][2]),
        )
}

/// Whether `base` is a noise-free torus cloud of `m` points, each of them a
/// triple that `on_torus` gives for the two radii.
pub open spec fn torus_base<K: Fn(u64, u64) -> (u64, u64, u64)>(
    on_torus: K,
    major: u64,
    minor: u64,
    m: usize,
    base: Seq<Seq<u64>>,
) -> bool {
    &&& base.len() == m
    &&& forall|k: int|
        0 <= k < m ==> (#[trigger] base[k]).len() == 3 && call_ensures(
            on_torus,
            (major, minor),
            (base[k][0], base[k][1], base[k][2]),
        )
}

/// Whether a kernel of the circle gives one pair only for each index below `m`.
pub open spec fn circle_kernel_is_function<K: Fn(usize, usize) -> (u64, u64)>(
    on_circle: K,
    m: usize,
) -> bool {
    forall|k: usize, p: (u64, u64), q: (u64, u64)|
        k < m && call_ensures(on_circle, (k, m), p) && call_ensures(on_circle, (k, m), q) ==> p
            == q
}

/// With a kernel that is a function of the index there is one noise-free
/// circle cloud of `m` points: two calls without noise give the same cloud,
/// encoding for encoding.
pub proof fn lemma_circle_base_unique<K: Fn(usize, usize) -> (u64, u64)>(
    on_circle: K,
    m: usize,
    first: Seq<Seq<u64>>,
    second: Seq<Seq<u64>>,
)
    requires
        circle_kernel_is_function(on_circle, m),
        circle_base(on_circle, m, first),
        circle_base(on_circle, m, second),
    ensures
        first == second,
{
    assert forall|k: int| 0 <= k < m implies first[k] == second[k] by {
        let p = (first[k][0], first[k][1]);
        let q = (second[k][0], second[k][1]);
        assert(call_ensures(on_circle, (k as usize, m), p));
        assert(call_ensures(on_circle, (k as usize, m), q));
        assert(p == q);
        assert(first[k] =~= second[k]);
    }
    assert(first =~= second);
}

/// `m` points on the unit circle, point `k` placed by `on_circle(k, m)`, then
/// perturbed where there is a noise interval.
///
/// The kernel is called for the indices `0` to `m - 1` in turn and for no
/// other: with `m` zero it is not called at all, and the cloud is empty.
pub fn unit_circle<K: Fn(usize, usize) -> (u64, u64), N: Fn(u64, u64, u64) -> u64>(
    m: usize,
    noise: Option<NoiseInterval>,
    on_circle: K,
    perturb: N,
) -> (cloud: Vec<Vec<u64>>)
    requires
        forall|k: usize| k < m ==> call_requires(on_circle, (k, m)),
        noise matches Some(interval) ==> forall|c: u64|
            call_requires(perturb, (c, interval.lo(), interval.hi())),
    ensures
        cloud.len() == m,
        forall|k: int| 0 <= k < m ==> (#[trigger] cloud[k]).len() == 2,
        exists|base: Seq<Seq<u64>>|
            circle_base(on_circle, m, base) && #[trigger] perturbed(
                perturb,
                noise,
                base,
                coordinates(cloud@),
            ),
        noise is None ==> circle_base(on_circle, m, coordinates(cloud@)),
{
    let mut points: Vec<Vec<u64>> = Vec::new();
    let mut k: usize = 0;
    while k < m
        invariant
            k <= m,
            points.len() == k,
            forall|i: usize| i < m ==> call_requires(on_circle, (i, m)),
            forall|i: int|
                0 <= i < k ==> (#[trigger] points[i]).len() == 2 && call_ensures(
                    on_circle,
                    (i as usize, m),
                    (points[i][0], points[i][1]),
                ),
        decreases m - k,
    {
        let (x, y) = on_circle(k, m);
        let mut point: Vec<u64> = Vec::with_capacity(2);
        point.push(x);
        point.push(y);
        points.push(point);
        k += 1;
    }
    let ghost base = coordinates(points@);
    assert(circle_base(on_circle, m, base));
    add_noise(&mut points, noise, perturb);
    proof {
        lemma_noise_keeps_shape(perturb, noise, base, coordinates(points@));
        assert forall|k: int| 0 <= k < m implies (#[trigger] points[k]).len() == 2 by {
            assert(coordinates(points@)[k] == points[k]@);
            assert(base[k].len() == 2);
        }
    }
    points
}

/// `m` triples from `draw`, as a cloud.
fn gather<K: Fn() -> (u64, u64, u64)>(m: usize, draw: &K) -> (points: Vec<Vec<u64>>)
    requires
        m > 0 ==> call_requires(*draw, ()),
    ensures
        drawn_base(*draw, m, coordinates(points@)),
{
    let mut points: Vec<Vec<u64>> = Vec::new();
    let mut k: usize = 0;
    while k < m
        invariant
            k <= m,
            points.len() == k,
            m > 0 ==> call_requires(*draw, ()),
            forall|i: int|
                0 <= i < k ==> (#[trigger] points[i]).len() == 3 && call_ensures(
                    *draw,
                    (),
                    (points[i][0], points[i][1], points[i][2]),
                ),
        decreases m - k,
    {
        let (x, y, z) = draw();
        let mut point: Vec<u64> = Vec::with_capacity(3);
        point.push(x);
        point.push(y);
        point.push(z);
        points.push(point);
        k += 1;
    }
    points
}

/// `m` points on the surface of the unit sphere, each one drawn by
/// `on_sphere`, then perturbed where there is a noise interval.
pub fn unit_sphere_surface<K: Fn() -> (u64, u64, u64), N: Fn(u64, u64, u64) -> u64>(
    m: usize,
    noise: Option<NoiseInterval>,
    on_sphere: K,
    perturb: N,
) -> (cloud: Vec<Vec<u64>>)
    requires
        m > 0 ==> call_requires(on_sphere, ()),
        noise matches Some(interval) ==> forall|c: u64|
            call_requires(perturb, (c, interval.lo(), interval.hi())),
    ensures
        cloud.len() == m,
        forall|k: int| 0 <= k < m ==> (#[trigger] cloud[k]).len() == 3,
        exists|base: Seq<Seq<u64>>|
            drawn_base(on_sphere, m, base) && #[trigger] perturbed(
                perturb,
                noise,
                base,
                coordinates(cloud@),
            ),
        noise is None ==> drawn_base(on_sphere, m, coordinates(cloud@)),
{
    let mut points = gather(m, &on_sphere);
    let ghost base = coordinates(points@);
    add_noise(&mut points, noise, perturb);
    proof {
        lemma_noise_keeps_shape(perturb, noise, base, coordinates(points@));
        assert forall|k: int| 0 <= k < m implies (#[trigger] points[k]).len() == 3 by {
            assert(coordinates(points@)[k] == points[k]@);
            assert(base[k].len() == 3);
        }
    }
    points
}

/// `m` points inside the unit ball, each one drawn by `in_ball`, then
/// perturbed where there is a noise interval.
pub fn unit_ball<K: Fn() -> (u64, u64, u64), N: Fn(u64, u64, u64) -> u64>(
    m: usize,
    noise: Option<NoiseInterval>,
    in_ball: K,
    perturb: N,
) -> (cloud: Vec<Vec<u64>>)
    requires
        m > 0 ==> call_requires(in_ball, ()),
        noise matches Some(interval) ==> forall|c: u64|
            call_requires(perturb, (c, interval.lo(), interval.hi())),
    ensures
        cloud.len() == m,
        forall|k: int| 0 <= k < m ==> (#[trigger] cloud[k]).len() == 3,
        exists|base: Seq<Seq<u64>>|
            drawn_base(in_ball, m, base) && #[trigger] perturbed(
                perturb,
                noise,
                base,
                coordinates(cloud@),
            ),
        noise is None ==> drawn_base(in_ball, m, coordinates(cloud@)),
{
    let mut points = gather(m, &in_ball);
    let ghost base = coordinates(points@);
    add_noise(&mut points, noise, perturb);
    proof {
        lemma_noise_keeps_shape(perturb, noise, base, coordinates(points@));
        assert forall|k: int| 0 <= k < m implies (#[trigger] points[k]).len() == 3 by {
            assert(coordinates(points@)[k] == points[k]@);
            assert(base[k].len() == 3);
        }
    }
    points
}

/// `m` points on the torus with the given radii, each one drawn by
/// `on_torus(major, minor)`, then perturbed where there is a noise interval.
///
/// Both radii are numbers above zero: the sampler is not to be entered with
/// any other.
pub fn torus<K: Fn(u64, u64) -> (u64, u64, u64), N: Fn(u64, u64, u64) -> u64>(
    m: usize,
    major: u64,
    minor: u64,
    noise: Option<NoiseInterval>,
    on_torus: K,
    perturb: N,
) -> (cloud: Vec<Vec<u64>>)
    requires
        spec_is_positive(major),
        spec_is_positive(minor),
        m > 0 ==> call_requires(on_torus, (major, minor)),
        noise matches Some(interval) ==> forall|c: u64|
            call_requires(perturb, (c, interval.lo(), interval.hi())),
    ensures
        cloud.len() == m,
        forall|k: int| 0 <= k < m ==> (#[trigger] cloud[k]).len() == 3,
        exists|base: Seq<Seq<u64>>|
            torus_base(on_torus, major, minor, m, base) && #[trigger] perturbed(
                perturb,
                noise,
                base,
                coordinates(cloud@),
            ),
        noise is None ==> torus_base(on_torus, major, minor, m, coordinates(cloud@)),
{
    let mut points: Vec<Vec<u64>> = Vec::new();
    let mut k: usize = 0;
    while k < m
        invariant
            k <= m,
            points.len() == k,
            m > 0 ==> call_requires(on_torus, (major, minor)),
            forall|i: int|
                0 <= i < k ==> (#[trigger] points[i]).len() == 3 && call_ensures(
                    on_torus,
                    (major, minor),
                    (points[i][0], points[i][1], points[i][2]),
                ),
        decreases m - k,
    {
        let (x, y, z) = on_torus(major, minor);
        let mut point: Vec<u64> = Vec::with_capacity(3);
        point.push(x);
        point.push(y);
        point.push(z);
        points.push(point);
        k += 1;
    }
    let ghost base = coordinates(points@);
    assert(torus_base(on_torus, major, minor, m, base));
    add_noise(&mut points, noise, perturb);
    proof {
        lemma_noise_keeps_shape(perturb, noise, base, coordinates(points@));
        assert forall|k: int| 0 <= k < m implies (#[trigger] points[k]).len() == 3 by {
            assert(coordinates(points@)[k] == points[k]@);
            assert(base[k].len() == 3);
        }
    }
    points
}

} // verus!
