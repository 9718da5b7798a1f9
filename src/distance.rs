//! Pairwise Euclidean distances among points of the unit cube, and the ratio
//! of the farthest to the nearest pair.
//!
//! A coordinate is a `u32` read as a fixed-point fraction `x / 2^32` of the
//! interval `[0, 1)`. Distances are kept squared, as exact integers in the
//! same unit squared: the Euclidean distance is the square root of the value,
//! and the ratio of two distances is the square root of the ratio of their
//! squares.
use vstd::prelude::*;

verus! {

/// Square of the difference of two coordinates.
pub open spec fn sq_diff(x: u32, y: u32) -> int {
    (x - y) * (x - y)
}

/// Sum of the squared differences over the first `n` coordinates.
pub open spec fn sq_dist_prefix(a: Seq<u32>, b: Seq<u32>, n: int) -> int
    decreases n,
{
    if n <= 0 {
        0
    } else {
        sq_dist_prefix(a, b, n - 1) + sq_diff(a[n - 1], b[n - 1])
    }
}

/// Squared Euclidean distance of two points, over the coordinates that both
/// of them have.
pub open spec fn sq_dist(a: Seq<u32>, b: Seq<u32>) -> int {
    sq_dist_prefix(a, b, if a.len() <= b.len() { a.len() as int } else { b.len() as int })
}

proof fn lemma_sq_diff_bounds(x: u32, y: u32)
    ensures
        0 <= sq_diff(x, y) <= 0xFFFF_FFFF_FFFF_FFFF,
{
    let d: int = x - y;
    assert(0 <= d * d) by (nonlinear_arith);
    assert(-0xFFFF_FFFF <= d <= 0xFFFF_FFFF);
    assert(d * d <= 0xFFFF_FFFF * 0xFFFF_FFFF) by (nonlinear_arith)
        requires
            -0xFFFF_FFFF <= d <= 0xFFFF_FFFF,
    ;
}

/// Squared Euclidean distance of `a` and `b`.
pub fn squared_distance(a: &Vec<u32>, b: &Vec<u32>) -> (r: u128)
    ensures
        r == sq_dist(a@, b@),
{
    let n: usize = if a.len() <= b.len() { a.len() } else { b.len() };
    let mut acc: u128 = 0;
    let mut i: usize = 0;
    while i < n
        invariant
            n <= a@.len(),
            n <= b@.len(),
            n == (if a@.len() <= b@.len() { a@.len() } else { b@.len() }),
            i <= n,
            acc == sq_dist_prefix(a@, b@, i as int),
            acc <= i * 0xFFFF_FFFF_FFFF_FFFFu128,
        decreases n - i,
    {
        let x = a[i];
        let y = b[i];
        let d: u64 = if x >= y { (x - y) as u64 } else { (y - x) as u64 };
        proof {
            lemma_sq_diff_bounds(x, y);
            assert(d * d == sq_diff(x, y)) by (nonlinear_arith)
                requires
                    d == x - y || d == y - x,
            ;
            assert((i + 1) * 0xFFFF_FFFF_FFFF_FFFFu128 == i * 0xFFFF_FFFF_FFFF_FFFFu128
                + 0xFFFF_FFFF_FFFF_FFFFu128) by (nonlinear_arith);
            let m: int = i + 1;
            assert(m <= 0x1_0000_0000_0000_0000int);
            assert(m * 0xFFFF_FFFF_FFFF_FFFFint <= 0x1_0000_0000_0000_0000int
                * 0xFFFF_FFFF_FFFF_FFFFint) by (nonlinear_arith)
                requires
                    m <= 0x1_0000_0000_0000_0000int,
            ;
        }
        let sq: u64 = d * d;
        acc = acc + sq as u128;
        i = i + 1;
    }
    acc
}

proof fn lemma_sq_dist_prefix_symmetric(a: Seq<u32>, b: Seq<u32>, n: int)
    ensures
        sq_dist_prefix(a, b, n) == sq_dist_prefix(b, a, n),
    decreases n,
{
    if n > 0 {
        lemma_sq_dist_prefix_symmetric(a, b, n - 1);
        let d: int = a[n - 1] - b[n - 1];
        assert(d * d == (-d) * (-d)) by (nonlinear_arith);
    }
}

proof fn lemma_sq_dist_prefix_self(a: Seq<u32>, n: int)
    ensures
        sq_dist_prefix(a, a, n) == 0,
    decreases n,
{
    if n > 0 {
        lemma_sq_dist_prefix_self(a, n - 1);
    }
}

/// Euclidean distance is symmetric: `a` is as far from `b` as `b` is from
/// `a`.
pub proof fn lemma_distance_symmetric(a: Seq<u32>, b: Seq<u32>)
    ensures
        sq_dist(a, b) == sq_dist(b, a),
{
    lemma_sq_dist_prefix_symmetric(a, b, if a.len() <= b.len() { a.len() as int } else { b.len() as int });
}

/// A point is at distance zero from itself.
pub proof fn lemma_distance_to_self(a: Seq<u32>)
    ensures
        sq_dist(a, a) == 0,
{
    lemma_sq_dist_prefix_self(a, a.len() as int);
}

proof fn lemma_sq_dist_prefix_nonnegative(a: Seq<u32>, b: Seq<u32>, n: int)
    ensures
        sq_dist_prefix(a, b, n) >= 0,
    decreases n,
{
    if n > 0 {
        lemma_sq_dist_prefix_nonnegative(a, b, n - 1);
        let d: int = a[n - 1] - b[n - 1];
        assert(d * d >= 0) by (nonlinear_arith);
    }
}

/// `(i, j)` is an unordered pair of distinct indices among `k` points, written
/// with `i < j`.
pub open spec fn is_pair(k: int, i: int, j: int) -> bool {
    0 <= i < j < k
}

/// Squared distance between the points at indices `i` and `j`.
pub open spec fn pair_sq_dist(points: Seq<Vec<u32>>, i: int, j: int) -> int {
    sq_dist(points[i]@, points[j]@)
}

/// `max_sq` is the largest squared distance over all pairs of `points`, and
/// `min_sq` the smallest: both are reached by some pair, and every pair lies
/// between them.
pub open spec fn is_pair_extremes(points: Seq<Vec<u32>>, max_sq: int, min_sq: int) -> bool {
    &&& exists|i: int, j: int| is_pair(points.len() as int, i, j) && pair_sq_dist(points, i, j) == max_sq
    &&& exists|i: int, j: int| is_pair(points.len() as int, i, j) && pair_sq_dist(points, i, j) == min_sq
    &&& forall|i: int, j: int|
        is_pair(points.len() as int, i, j) ==> min_sq <= #[trigger] pair_sq_dist(points, i, j) <= max_sq
}

/// The largest and the smallest squared distance over the pairs of a point
/// set.
#[derive(Clone, Copy, Debug, PartialEq, Eq, Structural)]
pub struct PairExtremes {
    pub max_sq: u128,
    pub min_sq: u128,
}

/// The pair `(a, b)` comes before `(i, j)` in the order of the scan: by first
/// index, then by second.
spec fn scanned(k: int, i: int, j: int, a: int, b: int) -> bool {
    is_pair(k, a, b) && (a < i || (a == i && b < j))
}

/// The farthest and the nearest pair of `points`, as squared distances;
/// `None` when there are fewer than two points, so that no pair exists.
pub fn pair_extremes(points: &Vec<Vec<u32>>) -> (r: Option<PairExtremes>)
    ensures
        r is None <==> points@.len() < 2,
        r matches Some(e) ==> is_pair_extremes(points@, e.max_sq as int, e.min_sq as int),
{
    let k = points.len();
    let ghost pts = points@;
    let mut dmax: u128 = 0;
    let mut dmin: u128 = 0;
    let mut found = false;
    let ghost mut wmax: (int, int) = (0, 0);
    let ghost mut wmin: (int, int) = (0, 0);
    let mut i: usize = 0;
    while i < k
        invariant
            k == pts.len(),
            pts == points@,
            i <= k,
            !found ==> forall|a: int, b: int| !scanned(k as int, i as int, 0, a, b),
            found ==> scanned(k as int, i as int, 0, wmax.0, wmax.1) && pair_sq_dist(pts, wmax.0, wmax.1) == dmax,
            found ==> scanned(k as int, i as int, 0, wmin.0, wmin.1) && pair_sq_dist(pts, wmin.0, wmin.1) == dmin,
            found ==> forall|a: int, b: int|
                scanned(k as int, i as int, 0, a, b) ==> dmin <= #[trigger] pair_sq_dist(pts, a, b) <= dmax,
        decreases k - i,
    {
        let mut j: usize = i + 1;
        assert forall|a: int, b: int| scanned(k as int, i as int, j as int, a, b) == scanned(k as int, i as int, 0, a, b) by {}
        while j < k
            invariant
                k == pts.len(),
                pts == points@,
                i < k,
                i + 1 <= j <= k,
                !found ==> forall|a: int, b: int| !scanned(k as int, i as int, j as int, a, b),
                found ==> scanned(k as int, i as int, j as int, wmax.0, wmax.1) && pair_sq_dist(pts, wmax.0, wmax.1) == dmax,
                found ==> scanned(k as int, i as int, j as int, wmin.0, wmin.1) && pair_sq_dist(pts, wmin.0, wmin.1) == dmin,
                found ==> forall|a: int, b: int|
                    scanned(k as int, i as int, j as int, a, b) ==> dmin <= #[trigger] pair_sq_dist(pts, a, b) <= dmax,
            decreases k - j,
        {
            let d = squared_distance(&points[i], &points[j]);
            if !found || d > dmax {
                dmax = d;
                proof {
                    wmax = (i as int, j as int);
                }
            }
            if !found || d < dmin {
                dmin = d;
                proof {
                    wmin = (i as int, j as int);
                }
            }
            proof {
                assert forall|a: int, b: int| scanned(k as int, i as int, j + 1, a, b) implies
                    scanned(k as int, i as int, j as int, a, b) || (a == i && b == j) by {}
                assert forall|a: int, b: int| scanned(k as int, i as int, j + 1, a, b) implies
                    dmin <= #[trigger] pair_sq_dist(pts, a, b) <= dmax by {
                    if a == i && b == j {
                    } else {
                        assert(scanned(k as int, i as int, j as int, a, b));
                    }
                }
            }
            found = true;
            j = j + 1;
        }
        let ghost next: int = i + 1;
        assert forall|a: int, b: int| scanned(k as int, next, 0, a, b) == scanned(k as int, i as int, j as int, a, b) by {}
        if !found {
            assert forall|a: int, b: int| !scanned(k as int, next, 0, a, b) by {
                assert(!scanned(k as int, i as int, j as int, a, b));
            }
        }
        i = i + 1;
    }
    if found {
        Some(PairExtremes { max_sq: dmax, min_sq: dmin })
    } else {
        if k >= 2 {
            assert(scanned(k as int, k as int, 0, 0, 1));
        }
        None
    }
}

/// Two computations of the extremes over the same point set agree: the
/// largest and the smallest squared distance are determined by the points.
pub proof fn lemma_pair_extremes_unique(
    points: Seq<Vec<u32>>,
    max1: int,
    min1: int,
    max2: int,
    min2: int,
)
    requires
        is_pair_extremes(points, max1, min1),
        is_pair_extremes(points, max2, min2),
    ensures
        max1 == max2,
        min1 == min2,
{
    let (a, b) = choose|a: int, b: int| is_pair(points.len() as int, a, b) && pair_sq_dist(points, a, b) == max1;
    let (c, d) = choose|c: int, d: int| is_pair(points.len() as int, c, d) && pair_sq_dist(points, c, d) == max2;
    let (e, f) = choose|e: int, f: int| is_pair(points.len() as int, e, f) && pair_sq_dist(points, e, f) == min1;
    let (g, h) = choose|g: int, h: int| is_pair(points.len() as int, g, h) && pair_sq_dist(points, g, h) == min2;
    assert(pair_sq_dist(points, a, b) <= max2);
    assert(pair_sq_dist(points, c, d) <= max1);
    assert(min2 <= pair_sq_dist(points, e, f));
    assert(min1 <= pair_sq_dist(points, g, h));
}

/// The farthest pair is at least as far apart as the nearest, and no
/// distance is negative.
pub proof fn lemma_pair_extremes_ordered(points: Seq<Vec<u32>>, max_sq: int, min_sq: int)
    requires
        is_pair_extremes(points, max_sq, min_sq),
    ensures
        max_sq >= min_sq >= 0,
{
    let (a, b) = choose|a: int, b: int| is_pair(points.len() as int, a, b) && pair_sq_dist(points, a, b) == min_sq;
    assert(min_sq <= pair_sq_dist(points, a, b) <= max_sq);
    lemma_sq_dist_prefix_nonnegative(points[a]@, points[b]@,
        if points[a]@.len() <= points[b]@.len() { points[a]@.len() as int } else { points[b]@.len() as int });
}

/// Outcome of the ratio of the farthest to the nearest pair of a point set.
#[derive(Clone, Copy, Debug, PartialEq, Eq, Structural)]
pub enum DistanceRatio {
    /// Fewer than two points: there is no pair, and no ratio.
    NoPairs,
    /// Two points coincide, so the nearest pair is at distance zero and the
    /// ratio is unbounded; `max_sq` is the squared distance of the farthest
    /// pair (zero when all points coincide, where the ratio is undefined).
    Coincident { max_sq: u128 },
    /// The ratio is `sqrt(max_sq / min_sq)`, from the squared distances of
    /// the farthest and the nearest pair; `min_sq` is positive.
    Finite { max_sq: u128, min_sq: u128 },
}

/// `r` is the ratio outcome for `points`.
pub open spec fn is_ratio_of(points: Seq<Vec<u32>>, r: DistanceRatio) -> bool {
    match r {
        DistanceRatio::NoPairs => points.len() < 2,
        DistanceRatio::Coincident { max_sq } => points.len() >= 2 && is_pair_extremes(
            points,
            max_sq as int,
            0,
        ),
        DistanceRatio::Finite { max_sq, min_sq } => points.len() >= 2 && min_sq > 0
            && is_pair_extremes(points, max_sq as int, min_sq as int),
    }
}

/// The ratio of the farthest to the nearest pair of `points`.
pub fn ratio_of_points(points: &Vec<Vec<u32>>) -> (r: DistanceRatio)
    ensures
        is_ratio_of(points@, r),
{
    match pair_extremes(points) {
        None => DistanceRatio::NoPairs,
        Some(e) => {
            if e.min_sq == 0 {
                DistanceRatio::Coincident { max_sq: e.max_sq }
            } else {
                DistanceRatio::Finite { max_sq: e.max_sq, min_sq: e.min_sq }
            }
        },
    }
}

/// Relies on `rand::random` (the thread-local generator, seeded from the
/// system's entropy): one uniformly drawn `u32`, of which nothing more can be
/// said.
#[verifier::external_body]
fn random_coordinate() -> (r: u32) {
    rand::random::<u32>()
}

/// `k` points of `n` coordinates each, every coordinate drawn independently
/// and uniformly.
pub fn generate_points(n: usize, k: usize) -> (points: Vec<Vec<u32>>)
    ensures
        points@.len() == k,
        forall|i: int| 0 <= i < k ==> (#[trigger] points@[i])@.len() == n,
{
    let mut points: Vec<Vec<u32>> = Vec::with_capacity(k);
    for p in 0..k
        invariant
            points@.len() == p,
            forall|i: int| 0 <= i < p ==> (#[trigger] points@[i])@.len() == n,
    {
        let mut point: Vec<u32> = Vec::with_capacity(n);
        for d in 0..n
            invariant
                point@.len() == d,
        {
            point.push(random_coordinate());
        }
        points.push(point);
    }
    points
}

/// Draws `k` random points of dimension `n` and returns the ratio of their
/// farthest to their nearest pair. Whatever the draw, the outcome is the
/// ratio of some set of `k` points of dimension `n`, so it is `NoPairs`
/// exactly when `k < 2`.
pub fn compute_ratio(n: usize, k: usize) -> (r: DistanceRatio)
    ensures
        exists|points: Seq<Vec<u32>>|
            points.len() == k && (forall|i: int| 0 <= i < k ==> (#[trigger] points[i])@.len() == n)
                && is_ratio_of(points, r),
        r is NoPairs <==> k < 2,
{
    let points = generate_points(n, k);
    let r = ratio_of_points(&points);
    assert(is_ratio_of(points@, r));
    r
}

} // verus!
