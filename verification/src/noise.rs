//! The noise interval and the step that perturbs a cloud with it.

use vstd::prelude::*;
use crate::binary64::{is_nan, less_than, spec_is_nan, spec_less_than, units};

verus! {

/// Why two bounds make no noise interval.
#[derive(Clone, Copy, Debug, PartialEq, Eq, Structural)]
pub enum NoiseError {
    /// A bound is a NaN.
    NotANumber,
    /// Both bounds are numbers, and the lower one is not below the upper one.
    Empty,
}

/// A half-open interval `[lo, hi)` of binary64 numbers, held as encodings,
/// with `lo < hi`.
#[derive(Clone, Copy, Debug)]
pub struct NoiseInterval {
    lo: u64,
    hi: u64,
}

impl NoiseInterval {
    #[verifier::type_invariant]
    spec fn ordered(self) -> bool {
        spec_less_than(self.lo, self.hi)
    }

    /// The encoding of the lower bound, which belongs to the interval.
    pub closed spec fn spec_lo(&self) -> u64 {
        self.lo
    }

    /// The encoding of the upper bound, which does not.
    pub closed spec fn spec_hi(&self) -> u64 {
        self.hi
    }

    /// The interval `[lo, hi)`, where there is one: two numbers with `lo < hi`.
    pub fn new(lo: u64, hi: u64) -> (r: Result<NoiseInterval, NoiseError>)
        ensures
            match r {
                Ok(interval) => spec_less_than(lo, hi) && interval.lo() == lo && interval.hi() == hi,
                Err(NoiseError::NotANumber) => spec_is_nan(lo) || spec_is_nan(hi),
                Err(NoiseError::Empty) => !spec_is_nan(lo) && !spec_is_nan(hi) && units(hi) <= units(lo),
            },
    {
        if is_nan(lo) || is_nan(hi) {
            Err(NoiseError::NotANumber)
        } else if less_than(lo, hi) {
            Ok(NoiseInterval { lo, hi })
        } else {
            Err(NoiseError::Empty)
        }
    }

    /// The encoding of the lower bound, which is below the upper one.
    #[verifier::when_used_as_spec(spec_lo)]
    pub fn lo(&self) -> (r: u64)
        ensures
            r == self.spec_lo(),
            spec_less_than(self.spec_lo(), self.spec_hi()),
    {
        proof {
            use_type_invariant(self);
        }
        self.lo
    }

    /// The encoding of the upper bound, which is above the lower one.
    #[verifier::when_used_as_spec(spec_hi)]
    pub fn hi(&self) -> (r: u64)
        ensures
            r == self.spec_hi(),
            spec_less_than(self.spec_lo(), self.spec_hi()),
    {
        proof {
            use_type_invariant(self);
        }
        self.hi
    }
}

/// The coordinates of a cloud: one sequence of encodings for each point.
pub open spec fn coordinates(cloud: Seq<Vec<u64>>) -> Seq<Seq<u64>> {
    Seq::new(cloud.len(), |k: int| cloud[k]@)
}

/// Whether `out` is what noise makes of the cloud `base`.
///
/// Without an interval the two are the same cloud, encoding for encoding.
/// With one, `out` has the shape of `base`, and coordinate `j` of point `k` is
/// a result of `perturb` on coordinate `j` of point `k` of `base` and the two
/// bounds.
pub open spec fn perturbed<N: Fn(u64, u64, u64) -> u64>(
    perturb: N,
    noise: Option<NoiseInterval>,
    base: Seq<Seq<u64>>,
    out: Seq<Seq<u64>>,
) -> bool {
    match noise {
        None => out == base,
        Some(interval) => {
            &&& out.len() == base.len()
            &&& forall|k: int| 0 <= k < base.len() ==> (#[trigger] out[k]).len() == base[k].len()
            &&& forall|k: int, j: int|
                0 <= k < base.len() && 0 <= j < base[k].len() ==> call_ensures(
                    perturb,
                    (base[k][j], interval.lo(), interval.hi()),
                    #[trigger] out[k][j],
                )
        },
    }
}

/// Noise keeps the shape of a cloud: as many points, and in each point as
/// many coordinates, index for index.
pub proof fn lemma_noise_keeps_shape<N: Fn(u64, u64, u64) -> u64>(
    perturb: N,
    noise: Option<NoiseInterval>,
    base: Seq<Seq<u64>>,
    out: Seq<Seq<u64>>,
)
    requires
        perturbed(perturb, noise, base, out),
    ensures
        out.len() == base.len(),
        forall|k: int| 0 <= k < base.len() ==> (#[trigger] out[k]).len() == base[k].len(),
{
}

/// Perturbs every coordinate of every point in place, where there is a noise
/// interval, and leaves the cloud as it is where there is none.
///
/// `perturb` takes a coordinate and the two bounds of the interval, and gives
/// the coordinate moved by one draw from the interval. It is called once for
/// each coordinate, point by point.
pub fn add_noise<N: Fn(u64, u64, u64) -> u64>(
    points: &mut Vec<Vec<u64>>,
    noise: Option<NoiseInterval>,
    perturb: N,
)
    requires
        noise matches Some(interval) ==> forall|c: u64|
            call_requires(perturb, (c, interval.lo(), interval.hi())),
    ensures
        perturbed(perturb, noise, coordinates(old(points)@), coordinates(final(points)@)),
{
    if let Some(interval) = noise {
        let lo = interval.lo();
        let hi = interval.hi();
        let ghost base = coordinates(points@);
        let mut k: usize = 0;
        while k < points.len()
            invariant
                k <= points.len(),
                points.len() == base.len(),
                interval.lo() == lo,
                interval.hi() == hi,
                forall|c: u64| call_requires(perturb, (c, lo, hi)),
                forall|i: int| 0 <= i < base.len() ==> (#[trigger] points[i]).len() == base[i].len(),
                forall|i: int, j: int|
                    0 <= i < k && 0 <= j < base[i].len() ==> call_ensures(
                        perturb,
                        (base[i][j], lo, hi),
                        #[trigger] points[i][j],
                    ),
                forall|i: int| k <= i < base.len() ==> (#[trigger] points[i])@ == base[i],
            decreases points.len() - k,
        {
            let mut j: usize = 0;
            while j < points[k].len()
                invariant
                    k < points.len(),
                    points.len() == base.len(),
                    j <= points[k as int].len(),
                    forall|c: u64| call_requires(perturb, (c, lo, hi)),
                    forall|i: int| 0 <= i < base.len() ==> (#[trigger] points[i]).len() == base[i].len(),
                    forall|i: int, j: int|
                        0 <= i < k && 0 <= j < base[i].len() ==> call_ensures(
                            perturb,
                            (base[i][j], lo, hi),
                            #[trigger] points[i][j],
                        ),
                    forall|i: int| k < i < base.len() ==> (#[trigger] points[i])@ == base[i],
                    forall|c: int|
                        0 <= c < j ==> call_ensures(
                            perturb,
                            (base[k as int][c], lo, hi),
                            #[trigger] points[k as int][c],
                        ),
                    forall|c: int| j <= c < base[k as int].len() ==> #[trigger] points[k as int][c] == base[k as int][c],
                decreases points[k as int].len() - j,
            {
                let moved = perturb(points[k][j], lo, hi);
                points[k][j] = moved;
                j += 1;
            }
            k += 1;
        }
    }
}

} // verus!
