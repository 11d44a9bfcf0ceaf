use vstd::prelude::*;

use crate::distance::{dist2_spec, euclidean_distance_squared, lemma_dist2_spec_bound};
use crate::point::{abs_bounded, Point, COORD_LIMIT, DIM_LIMIT};

verus! {

/// Decides whether a configuration, or the straight segment between two
/// configurations, is admissible (collision-free).
pub trait ValidityChecker: Sized {
    /// The dimension of the configuration space the checker works in.
    spec fn dim(&self) -> nat;

    /// The checker's own well-formedness.
    spec fn inv(&self) -> bool;

    /// What it means for a single configuration to be admissible.
    spec fn point_ok(&self, p: Seq<i64>) -> bool;

    /// What it means for the straight segment between two configurations to
    /// be admissible.
    spec fn edge_ok(&self, a: Seq<i64>, b: Seq<i64>) -> bool;

    /// Checks if a point is valid (does not collide with obstacles).
    fn is_point_valid(&self, point: &Point) -> (r: bool)
        requires
            self.inv(),
            point.wf(self.dim()),
        ensures
            r == self.point_ok(point@),
    ;

    /// Checks if an edge is valid (does not collide with obstacles).
    fn is_edge_valid(&self, a: &Point, b: &Point) -> (r: bool)
        requires
            self.inv(),
            a.wf(self.dim()),
            b.wf(self.dim()),
        ensures
            r == self.edge_ok(a@, b@),
    ;
}

/// A spherical obstacle: all configurations whose distance to `center` is at
/// most `radius` (boundary included) are in collision.
#[derive(Debug)]
pub struct Sphere {
    pub center: Point,
    pub radius: i64,
}

impl Clone for Sphere {
    /// Cloning a sphere preserves its center and radius exactly.
    fn clone(&self) -> (r: Self)
        ensures
            r.center@ == self.center@,
            r.radius == self.radius,
    {
        Sphere { center: self.center.clone(), radius: self.radius }
    }
}

/// Sum over all positions of `(b[i] - a[i]) * (c[i] - a[i])`: the numerator
/// of the projection parameter of `c` onto the segment from `a` to `b`,
/// scaled by the squared segment length.
pub open spec fn proj_num_spec(a: Seq<i64>, b: Seq<i64>, c: Seq<i64>) -> int
    decreases a.len(),
{
    if a.len() == 0 {
        0
    } else {
        proj_num_spec(a.drop_last(), b.drop_last(), c.drop_last()) + (b.last() - a.last()) * (
        c.last() - a.last())
    }
}

/// A projection numerator over sequences bounded by `c` is at most
/// `len * (2c)^2` in magnitude.
pub proof fn lemma_proj_num_spec_bound(a: Seq<i64>, b: Seq<i64>, c: Seq<i64>, m: int)
    requires
        a.len() == b.len(),
        a.len() == c.len(),
        m >= 0,
        abs_bounded(a, m),
        abs_bounded(b, m),
        abs_bounded(c, m),
    ensures
        -(a.len() * (4 * m * m)) <= proj_num_spec(a, b, c) <= a.len() * (4 * m * m),
    decreases a.len(),
{
    if a.len() > 0 {
        let a0 = a.drop_last();
        let b0 = b.drop_last();
        let c0 = c.drop_last();
        assert(abs_bounded(a0, m));
        assert(abs_bounded(b0, m));
        assert(abs_bounded(c0, m));
        lemma_proj_num_spec_bound(a0, b0, c0, m);
        let x = b.last() - a.last();
        let y = c.last() - a.last();
        assert(-(4 * m * m) <= x * y <= 4 * m * m) by (nonlinear_arith)
            requires
                -2 * m <= x <= 2 * m,
                -2 * m <= y <= 2 * m,
                m >= 0,
        ;
        assert(a0.len() * (4 * m * m) + 4 * m * m == a.len() * (4 * m * m)) by (nonlinear_arith)
            requires
                a0.len() + 1 == a.len(),
        ;
    }
}

/// Sum over all positions of `(den*(c[i]-a[i]) - num*(b[i]-a[i]))^2`: the
/// squared distance from `c` to the point at parameter `num/den` along the
/// segment from `a` to `b`, scaled by `den^2` so it stays an integer.
pub open spec fn scaled_perp2_spec(a: Seq<i64>, b: Seq<i64>, c: Seq<i64>, den: int, num: int) -> int
    decreases a.len(),
{
    if a.len() == 0 {
        0
    } else {
        let t = den * (c.last() - a.last()) - num * (b.last() - a.last());
        scaled_perp2_spec(a.drop_last(), b.drop_last(), c.drop_last(), den, num) + t * t
    }
}

impl Sphere {
    /// The sphere is usable in a `dim`-dimensional configuration space.
    pub open spec fn wf(&self, dim: nat) -> bool {
        &&& self.center.wf(dim)
        &&& 0 <= self.radius <= COORD_LIMIT
    }

    /// The configuration `p` collides with this sphere: its squared distance
    /// to the center is at most the squared radius, boundary included.
    pub open spec fn blocks_point(&self, p: Seq<i64>) -> bool {
        dist2_spec(p, self.center@) <= self.radius * self.radius
    }

    /// The straight segment from `a` to `b` collides with this sphere.
    ///
    /// The closest point of the segment to the center sits at parameter
    /// `t = num/den` along the segment. When the segment is degenerate
    /// (`den == 0`) the test falls back to point containment; when `t` falls
    /// outside [0, 1] only the two endpoints are tested; otherwise the
    /// projected point is tested, with every comparison scaled by `den^2`
    /// so that it is exact in integers.
    pub open spec fn blocks_edge(&self, a: Seq<i64>, b: Seq<i64>) -> bool {
        let den = dist2_spec(a, b);
        let num = proj_num_spec(a, b, self.center@);
        if den == 0 {
            self.blocks_point(a)
        } else if num < 0 || num > den {
            self.blocks_point(a) || self.blocks_point(b)
        } else {
            scaled_perp2_spec(a, b, self.center@, den, num) <= self.radius * self.radius * den
                * den
        }
    }
}

/// Computes the projection numerator `proj_num_spec(a, b, c)`.
fn proj_num(a: &Point, b: &Point, c: &Point) -> (r: i64)
    requires
        a@.len() == b@.len(),
        a@.len() == c@.len(),
        a@.len() <= DIM_LIMIT,
        abs_bounded(a@, COORD_LIMIT as int),
        abs_bounded(b@, COORD_LIMIT as int),
        abs_bounded(c@, COORD_LIMIT as int),
    ensures
        r == proj_num_spec(a@, b@, c@),
        -(DIM_LIMIT as int) * (4 * COORD_LIMIT * COORD_LIMIT) <= r <= (DIM_LIMIT as int) * (4
            * COORD_LIMIT * COORD_LIMIT),
{
    let av = a.coords();
    let bv = b.coords();
    let cv = c.coords();
    let n = av.len();
    let mut sum: i64 = 0;
    let mut i: usize = 0;
    proof {
        lemma_proj_num_spec_bound(a@, b@, c@, COORD_LIMIT as int);
        assert((a@.len() as int) * (4 * COORD_LIMIT * COORD_LIMIT) <= (DIM_LIMIT as int) * (4
            * COORD_LIMIT * COORD_LIMIT)) by (nonlinear_arith)
            requires
                0 <= a@.len() <= DIM_LIMIT,
        ;
    }
    while i < n
        invariant
            i <= n,
            n == a@.len(),
            n == b@.len(),
            n == c@.len(),
            n <= DIM_LIMIT,
            av@ == a@,
            bv@ == b@,
            cv@ == c@,
            abs_bounded(a@, COORD_LIMIT as int),
            abs_bounded(b@, COORD_LIMIT as int),
            abs_bounded(c@, COORD_LIMIT as int),
            sum == proj_num_spec(a@.take(i as int), b@.take(i as int), c@.take(i as int)),
        decreases n - i,
    {
        proof {
            assert(abs_bounded(a@.take(i as int), COORD_LIMIT as int));
            assert(abs_bounded(b@.take(i as int), COORD_LIMIT as int));
            assert(abs_bounded(c@.take(i as int), COORD_LIMIT as int));
            lemma_proj_num_spec_bound(
                a@.take(i as int),
                b@.take(i as int),
                c@.take(i as int),
                COORD_LIMIT as int,
            );
            let x = b@[i as int] - a@[i as int];
            let y = c@[i as int] - a@[i as int];
            assert(-(4 * COORD_LIMIT * COORD_LIMIT) <= x * y <= 4 * COORD_LIMIT
                * COORD_LIMIT) by (nonlinear_arith)
                requires
                    -2 * COORD_LIMIT <= x <= 2 * COORD_LIMIT,
                    -2 * COORD_LIMIT <= y <= 2 * COORD_LIMIT,
            ;
            assert((i as int) * (4 * COORD_LIMIT * COORD_LIMIT) <= (DIM_LIMIT as int) * (4
                * COORD_LIMIT * COORD_LIMIT)) by (nonlinear_arith)
                requires
                    0 <= i as int <= DIM_LIMIT as int,
            ;
        }
        let x = bv[i] - av[i];
        let y = cv[i] - av[i];
        sum = sum + x * y;
        proof {
            assert(a@.take(i as int + 1).drop_last() =~= a@.take(i as int));
            assert(b@.take(i as int + 1).drop_last() =~= b@.take(i as int));
            assert(c@.take(i as int + 1).drop_last() =~= c@.take(i as int));
        }
        i = i + 1;
    }
    proof {
        assert(a@.take(n as int) =~= a@);
        assert(b@.take(n as int) =~= b@);
        assert(c@.take(n as int) =~= c@);
    }
    sum
}

/// Decides `s.blocks_edge(a@, b@)` exactly, using only integer arithmetic.
fn edge_hits_sphere(a: &Point, b: &Point, s: &Sphere) -> (r: bool)
    requires
        a@.len() == b@.len(),
        a@.len() == s.center@.len(),
        a@.len() <= DIM_LIMIT,
        abs_bounded(a@, COORD_LIMIT as int),
        abs_bounded(b@, COORD_LIMIT as int),
        abs_bounded(s.center@, COORD_LIMIT as int),
        0 <= s.radius <= COORD_LIMIT,
    ensures
        r == s.blocks_edge(a@, b@),
{
    proof {
        lemma_dist2_spec_bound(a@, b@, COORD_LIMIT as int);
        assert((a@.len() as int) * (4 * COORD_LIMIT * COORD_LIMIT) <= (DIM_LIMIT as int) * (4
            * COORD_LIMIT * COORD_LIMIT)) by (nonlinear_arith)
            requires
                0 <= a@.len() <= DIM_LIMIT,
        ;
    }
    let den = euclidean_distance_squared(a, b);
    proof {
        let ri = s.radius as int;
        assert(0 <= ri * ri <= 0x40000000) by (nonlinear_arith)
            requires
                0 <= ri <= 0x8000,
        ;
    }
    let rr = s.radius * s.radius;
    if den == 0 {
        return euclidean_distance_squared(a, &s.center) <= rr;
    }
    let num = proj_num(a, b, &s.center);
    if num < 0 || num > den {
        return euclidean_distance_squared(a, &s.center) <= rr || euclidean_distance_squared(
            b,
            &s.center,
        ) <= rr;
    }
    // From here on `0 <= num <= den <= DIM_LIMIT * 4 * COORD_LIMIT^2`, so the
    // scaled squared distance fits comfortably in an `i128`.
    let av = a.coords();
    let bv = b.coords();
    let cv = s.center.coords();
    let n = av.len();
    let den_w: i128 = den as i128;
    let num_w: i128 = num as i128;
    let mut sum: i128 = 0;
    let mut i: usize = 0;
    while i < n
        invariant
            i <= n,
            n == a@.len(),
            n == b@.len(),
            n == s.center@.len(),
            n <= DIM_LIMIT,
            av@ == a@,
            bv@ == b@,
            cv@ == s.center@,
            abs_bounded(a@, COORD_LIMIT as int),
            abs_bounded(b@, COORD_LIMIT as int),
            abs_bounded(s.center@, COORD_LIMIT as int),
            den_w == den as int,
            num_w == num as int,
            0 <= den_w <= 0x1000000000,
            0 <= num_w <= den_w,
            sum == scaled_perp2_spec(
                a@.take(i as int),
                b@.take(i as int),
                s.center@.take(i as int),
                den as int,
                num as int,
            ),
            0 <= sum <= (i as int) * 0x1000000000000000000000000000,
        decreases n - i,
    {
        let dc = cv[i] - av[i];
        let db = bv[i] - av[i];
        proof {
            let dci = dc as int;
            let dbi = db as int;
            let dw = den_w as int;
            let nw = num_w as int;
            assert(-0x10000000000000 <= dw * dci <= 0x10000000000000) by (nonlinear_arith)
                requires
                    0 <= dw <= 0x1000000000,
                    -0x10000 <= dci <= 0x10000,
            ;
            assert(-0x10000000000000 <= nw * dbi <= 0x10000000000000) by (nonlinear_arith)
                requires
                    0 <= nw <= 0x1000000000,
                    -0x10000 <= dbi <= 0x10000,
            ;
        }
        let t: i128 = den_w * (dc as i128) - num_w * (db as i128);
        proof {
            let ti = t as int;
            assert(0 <= ti * ti <= 0x1000000000000000000000000000) by (nonlinear_arith)
                requires
                    -0x20000000000000 <= ti <= 0x20000000000000,
            ;
            assert((i as int) * 0x1000000000000000000000000000 + 0x1000000000000000000000000000
                <= (DIM_LIMIT as int) * 0x1000000000000000000000000000) by (nonlinear_arith)
                requires
                    0 <= i as int <= DIM_LIMIT as int - 1,
            ;
        }
        let t2: i128 = t * t;
        sum = sum + t2;
        proof {
            assert(a@.take(i as int + 1).drop_last() =~= a@.take(i as int));
            assert(b@.take(i as int + 1).drop_last() =~= b@.take(i as int));
            assert(s.center@.take(i as int + 1).drop_last() =~= s.center@.take(i as int));
        }
        i = i + 1;
    }
    proof {
        assert(a@.take(n as int) =~= a@);
        assert(b@.take(n as int) =~= b@);
        assert(s.center@.take(n as int) =~= s.center@);
    }
    proof {
        let rri = rr as int;
        let dw = den_w as int;
        assert(0 <= rri * dw && rri * dw <= 0x40000000 * 0x1000000000 && 0 <= rri * dw * dw && rri
            * dw * dw <= 0x40000000 * 0x1000000000 * 0x1000000000) by (nonlinear_arith)
            requires
                0 <= rri <= 0x40000000,
                0 <= dw <= 0x1000000000,
        ;
    }
    let rr_w: i128 = (rr as i128) * den_w * den_w;
    sum <= rr_w
}

/// An obstacle model made of spherical obstacles: a configuration is
/// admissible exactly when it lies strictly outside every sphere.
#[derive(Debug)]
pub struct EuclideanSphericalObstacleSet {
    /// The spherical obstacles; their union is the excluded region.
    pub spheres: Vec<Sphere>,
    /// The dimension of the configuration space.
    pub dim: usize,
}

impl EuclideanSphericalObstacleSet {
    /// The obstacle set is well formed: a usable dimension, and every sphere
    /// lives in that dimension with a representable radius.
    pub open spec fn wf(&self) -> bool {
        &&& 1 <= self.dim <= DIM_LIMIT
        &&& forall|k: int|
            0 <= k < self.spheres@.len() ==> (#[trigger] self.spheres@[k]).wf(self.dim as nat)
    }

    /// Constructs an obstacle set from its spheres.
    pub fn new(spheres: Vec<Sphere>, dim: usize) -> (r: Self)
        requires
            1 <= dim <= DIM_LIMIT,
            forall|k: int| 0 <= k < spheres@.len() ==> (#[trigger] spheres@[k]).wf(dim as nat),
        ensures
            r.spheres@ == spheres@,
            r.dim == dim,
            r.wf(),
    {
        EuclideanSphericalObstacleSet { spheres, dim }
    }

    /// The spheres of the obstacle set.
    pub fn spheres(&self) -> (r: &Vec<Sphere>)
        ensures
            r@ == self.spheres@,
    {
        &self.spheres
    }
}

impl ValidityChecker for EuclideanSphericalObstacleSet {
    open spec fn dim(&self) -> nat {
        self.dim as nat
    }

    open spec fn inv(&self) -> bool {
        self.wf()
    }

    /// Admissible means: strictly outside every sphere.
    open spec fn point_ok(&self, p: Seq<i64>) -> bool {
        forall|k: int| 0 <= k < self.spheres@.len() ==> !(#[trigger] self.spheres@[k]).blocks_point(
            p,
        )
    }

    /// Admissible means: the segment stays strictly outside every sphere,
    /// in the sense of `Sphere::blocks_edge`.
    open spec fn edge_ok(&self, a: Seq<i64>, b: Seq<i64>) -> bool {
        forall|k: int| 0 <= k < self.spheres@.len() ==> !(#[trigger] self.spheres@[k]).blocks_edge(
            a,
            b,
        )
    }

    fn is_point_valid(&self, point: &Point) -> (r: bool) {
        let n = self.spheres.len();
        let mut i: usize = 0;
        while i < n
            invariant
                i <= n,
                n == self.spheres@.len(),
                self.inv(),
                point.wf(self.dim()),
                forall|k: int| 0 <= k < i ==> !(#[trigger] self.spheres@[k]).blocks_point(point@),
            decreases n - i,
        {
            let s = &self.spheres[i];
            let d2 = euclidean_distance_squared(point, &s.center);
            proof {
                let ri = s.radius as int;
                assert(0 <= ri * ri <= 0x40000000) by (nonlinear_arith)
                    requires
                        0 <= ri <= 0x8000,
                ;
            }
            if d2 <= s.radius * s.radius {
                return false;
            }
            i = i + 1;
        }
        true
    }

    fn is_edge_valid(&self, a: &Point, b: &Point) -> (r: bool) {
        let n = self.spheres.len();
        let mut i: usize = 0;
        while i < n
            invariant
                i <= n,
                n == self.spheres@.len(),
                self.inv(),
                a.wf(self.dim()),
                b.wf(self.dim()),
                forall|k: int| 0 <= k < i ==> !(#[trigger] self.spheres@[k]).blocks_edge(a@, b@),
            decreases n - i,
        {
            let s = &self.spheres[i];
            if edge_hits_sphere(a, b, s) {
                return false;
            }
            i = i + 1;
        }
        true
    }
}

} // verus!
