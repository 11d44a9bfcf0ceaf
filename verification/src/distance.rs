use vstd::prelude::*;

use crate::point::{abs_bounded, Point, COORD_LIMIT, DIM_LIMIT};

verus! {

/// Sum over all positions of `(a[i] - b[i])^2`: the squared Euclidean
/// distance between the two coordinate sequences.
pub open spec fn dist2_spec(a: Seq<i64>, b: Seq<i64>) -> int
    decreases a.len(),
{
    if a.len() == 0 {
        0
    } else {
        dist2_spec(a.drop_last(), b.drop_last()) + (a.last() - b.last()) * (a.last() - b.last())
    }
}

/// A squared distance is never negative.
pub proof fn lemma_dist2_spec_nonneg(a: Seq<i64>, b: Seq<i64>)
    ensures
        dist2_spec(a, b) >= 0,
    decreases a.len(),
{
    if a.len() > 0 {
        lemma_dist2_spec_nonneg(a.drop_last(), b.drop_last());
        let d = a.last() - b.last();
        assert(d * d >= 0) by (nonlinear_arith);
    }
}

/// A squared distance between sequences bounded by `c` is at most
/// `len * (2c)^2`.
pub proof fn lemma_dist2_spec_bound(a: Seq<i64>, b: Seq<i64>, c: int)
    requires
        a.len() == b.len(),
        c >= 0,
        abs_bounded(a, c),
        abs_bounded(b, c),
    ensures
        dist2_spec(a, b) <= a.len() * (4 * c * c),
    decreases a.len(),
{
    if a.len() > 0 {
        let a0 = a.drop_last();
        let b0 = b.drop_last();
        assert(abs_bounded(a0, c));
        assert(abs_bounded(b0, c));
        lemma_dist2_spec_bound(a0, b0, c);
        let d = a.last() - b.last();
        assert(d * d <= 4 * c * c) by (nonlinear_arith)
            requires
                -2 * c <= d <= 2 * c,
                c >= 0,
        ;
        assert(a0.len() * (4 * c * c) + 4 * c * c == a.len() * (4 * c * c)) by (nonlinear_arith)
            requires
                a0.len() + 1 == a.len(),
        ;
    }
}

/// Compute the squared Euclidean distance between two points.
pub fn euclidean_distance_squared(a: &Point, b: &Point) -> (r: i64)
    requires
        a@.len() == b@.len(),
        a@.len() <= DIM_LIMIT,
        abs_bounded(a@, 2 * COORD_LIMIT),
        abs_bounded(b@, 2 * COORD_LIMIT),
    ensures
        r == dist2_spec(a@, b@),
        0 <= r <= (DIM_LIMIT as int) * (16 * COORD_LIMIT * COORD_LIMIT),
{
    let av = a.coords();
    let bv = b.coords();
    let n = av.len();
    let mut sum: i64 = 0;
    let mut i: usize = 0;
    proof {
        lemma_dist2_spec_nonneg(a@, b@);
        lemma_dist2_spec_bound(a@, b@, 2 * COORD_LIMIT as int);
        assert((a@.len() as int) * (16 * COORD_LIMIT * COORD_LIMIT) <= (DIM_LIMIT as int) * (16
            * COORD_LIMIT * COORD_LIMIT)) by (nonlinear_arith)
            requires
                0 <= a@.len() <= DIM_LIMIT,
        ;
    }
    while i < n
        invariant
            i <= n,
            n == a@.len(),
            n == b@.len(),
            n <= DIM_LIMIT,
            av@ == a@,
            bv@ == b@,
            abs_bounded(a@, 2 * COORD_LIMIT),
            abs_bounded(b@, 2 * COORD_LIMIT),
            sum == dist2_spec(a@.take(i as int), b@.take(i as int)),
        decreases n - i,
    {
        proof {
            assert(abs_bounded(a@.take(i as int), 2 * COORD_LIMIT));
            assert(abs_bounded(b@.take(i as int), 2 * COORD_LIMIT));
            lemma_dist2_spec_nonneg(a@.take(i as int), b@.take(i as int));
            lemma_dist2_spec_bound(a@.take(i as int), b@.take(i as int), 2 * COORD_LIMIT as int);
            let d = a@[i as int] - b@[i as int];
            assert(0 <= d * d <= 16 * COORD_LIMIT * COORD_LIMIT) by (nonlinear_arith)
                requires
                    -4 * COORD_LIMIT <= d <= 4 * COORD_LIMIT,
            ;
            assert((i as int) * (16 * COORD_LIMIT * COORD_LIMIT) <= (DIM_LIMIT as int) * (16
                * COORD_LIMIT * COORD_LIMIT)) by (nonlinear_arith)
                requires
                    0 <= i as int <= DIM_LIMIT as int,
            ;
        }
        let d = av[i] - bv[i];
        sum = sum + d * d;
        proof {
            assert(a@.take(i as int + 1).drop_last() =~= a@.take(i as int));
            assert(b@.take(i as int + 1).drop_last() =~= b@.take(i as int));
        }
        i = i + 1;
    }
    proof {
        assert(a@.take(n as int) =~= a@);
        assert(b@.take(n as int) =~= b@);
    }
    sum
}

/// `r` is the square root of `n` rounded down.
pub open spec fn is_floor_sqrt(n: int, r: int) -> bool {
    &&& r >= 0
    &&& r * r <= n
    &&& (r + 1) * (r + 1) > n
}

/// `r` is the square root of `n` rounded up.
pub open spec fn is_ceil_sqrt(n: int, r: int) -> bool {
    &&& r >= 0
    &&& r * r >= n
    &&& (r == 0 || (r - 1) * (r - 1) < n)
}

/// No two distinct values both satisfy `is_ceil_sqrt` for the same input;
/// this pins the witness in contracts that quantify over a rounded-up
/// square root, such as the steering function's.
pub proof fn lemma_ceil_sqrt_unique(n: int, r1: int, r2: int)
    requires
        is_ceil_sqrt(n, r1),
        is_ceil_sqrt(n, r2),
    ensures
        r1 == r2,
{
    if r1 < r2 {
        assert(r1 * r1 <= (r2 - 1) * (r2 - 1)) by (nonlinear_arith)
            requires
                0 <= r1 <= r2 - 1,
        ;
    }
    if r2 < r1 {
        assert(r2 * r2 <= (r1 - 1) * (r1 - 1)) by (nonlinear_arith)
            requires
                0 <= r2 <= r1 - 1,
        ;
    }
}

/// The square root of `n`, rounded down, found by binary search.
pub fn floor_sqrt(n: i64) -> (r: i64)
    requires
        0 <= n <= 0x4000000000,
    ensures
        is_floor_sqrt(n as int, r as int),
{
    let mut lo: i64 = 0;
    let mut hi: i64 = 0x80001;
    proof {
        assert(0x80001 * 0x80001 > 0x4000000000) by (nonlinear_arith);
    }
    while lo + 1 < hi
        invariant
            0 <= lo < hi <= 0x80001,
            lo * lo <= n,
            hi * hi > n,
        decreases hi - lo,
    {
        let mid = lo + (hi - lo) / 2;
        assert(lo < mid < hi);
        assert(mid * mid <= 0x80001 * 0x80001) by (nonlinear_arith)
            requires
                0 <= mid <= 0x80001,
        ;
        if mid * mid <= n {
            lo = mid;
        } else {
            hi = mid;
        }
    }
    lo
}

/// The square root of `n`, rounded up.
pub fn ceil_sqrt(n: i64) -> (r: i64)
    requires
        0 <= n <= 0x4000000000,
    ensures
        is_ceil_sqrt(n as int, r as int),
{
    if n == 0 {
        return 0;
    }
    let f = floor_sqrt(n);
    assert(f < 0x80001) by {
        assert(0x80001 * 0x80001 > 0x4000000000) by (nonlinear_arith);
        if f >= 0x80001 {
            assert(f * f >= 0x80001 * 0x80001) by (nonlinear_arith)
                requires
                    f >= 0x80001,
            ;
        }
    };
    if f * f == n {
        assert(f >= 1);
        assert((f - 1) * (f - 1) < f * f) by (nonlinear_arith)
            requires
                f >= 1,
        ;
        f
    } else {
        f + 1
    }
}

/// Compute the Euclidean distance between two points, rounded down to an
/// integer.
pub fn euclidean_distance(a: &Point, b: &Point) -> (r: i64)
    requires
        a@.len() == b@.len(),
        a@.len() <= DIM_LIMIT,
        abs_bounded(a@, 2 * COORD_LIMIT),
        abs_bounded(b@, 2 * COORD_LIMIT),
    ensures
        is_floor_sqrt(dist2_spec(a@, b@), r as int),
{
    let d2 = euclidean_distance_squared(a, b);
    floor_sqrt(d2)
}

} // verus!
