use vstd::prelude::*;

use crate::errors::ConfigurationError;

verus! {

/// Largest magnitude a coordinate of a configuration may have.
///
/// Keeping every coordinate inside this bound lets every geometric
/// computation in the crate (dot products, squared distances, the exact
/// segment tests) stay inside `i64`/`i128` without overflow.
pub const COORD_LIMIT: i64 = 32768;

/// Largest number of dimensions a configuration space may have.
pub const DIM_LIMIT: usize = 16;

/// Every entry of `s` has magnitude at most `b`.
pub open spec fn abs_bounded(s: Seq<i64>, b: int) -> bool {
    forall|i: int| 0 <= i < s.len() ==> -b <= #[trigger] s[i] && s[i] <= b
}

/// Sum over all positions of `a[i] * b[i]`.
pub open spec fn dot_spec(a: Seq<i64>, b: Seq<i64>) -> int
    decreases a.len(),
{
    if a.len() == 0 {
        0
    } else {
        dot_spec(a.drop_last(), b.drop_last()) + a.last() * b.last()
    }
}

/// A dot product of sequences bounded by `ba` and `bb` is bounded by
/// `len * ba * bb` in magnitude.
pub proof fn lemma_dot_spec_bound(a: Seq<i64>, b: Seq<i64>, ba: int, bb: int)
    requires
        a.len() == b.len(),
        ba >= 0,
        bb >= 0,
        abs_bounded(a, ba),
        abs_bounded(b, bb),
    ensures
        -(a.len() * ba * bb) <= dot_spec(a, b) <= a.len() * ba * bb,
    decreases a.len(),
{
    if a.len() > 0 {
        let a0 = a.drop_last();
        let b0 = b.drop_last();
        assert(abs_bounded(a0, ba));
        assert(abs_bounded(b0, bb));
        lemma_dot_spec_bound(a0, b0, ba, bb);
        let x = a.last() as int;
        let y = b.last() as int;
        assert(-(ba * bb) <= x * y <= ba * bb) by (nonlinear_arith)
            requires
                -ba <= x <= ba,
                -bb <= y <= bb,
                ba >= 0,
                bb >= 0,
        ;
        assert(a0.len() * ba * bb + ba * bb == a.len() * ba * bb) by (nonlinear_arith)
            requires
                a0.len() + 1 == a.len(),
        ;
    }
}

/// The dot product of a sequence with itself is never negative.
pub proof fn lemma_dot_spec_self_nonneg(a: Seq<i64>)
    ensures
        dot_spec(a, a) >= 0,
    decreases a.len(),
{
    if a.len() > 0 {
        lemma_dot_spec_self_nonneg(a.drop_last());
        let x = a.last() as int;
        assert(x * x >= 0) by (nonlinear_arith);
    }
}

/// A point (equivalently, a vector) in N-dimensional space with integer
/// coordinates. A pure value: its identity is exactly its coordinates.
#[derive(Debug)]
pub struct Point {
    coords: Vec<i64>,
}

impl View for Point {
    type V = Seq<i64>;

    closed spec fn view(&self) -> Seq<i64> {
        self.coords@
    }
}

impl Clone for Point {
    /// Cloning a point preserves its coordinates exactly.
    fn clone(&self) -> (r: Self)
        ensures
            r@ == self@,
    {
        Point { coords: self.coords.clone() }
    }
}

impl Point {
    /// Every coordinate lies within the representable planning range.
    pub open spec fn in_range(&self) -> bool {
        abs_bounded(self@, COORD_LIMIT as int)
    }

    /// The point is usable in a `dim`-dimensional configuration space.
    pub open spec fn wf(&self, dim: nat) -> bool {
        &&& self@.len() == dim
        &&& 1 <= dim <= DIM_LIMIT
        &&& self.in_range()
    }

    /// Constructs a point directly from its coordinates; always succeeds.
    pub fn new(coords: Vec<i64>) -> (r: Point)
        ensures
            r@ == coords@,
    {
        Point { coords }
    }

    /// Constructs a point from a variable-length coordinate sequence,
    /// checking that the sequence has exactly `dim` entries.
    pub fn from_vec(coords: Vec<i64>, dim: usize) -> (r: Result<Point, ConfigurationError>)
        ensures
            r is Ok <==> coords@.len() == dim,
            r is Ok ==> r->Ok_0@ == coords@,
            r is Err ==> r->Err_0 == ConfigurationError::DimensionMismatch,
    {
        if coords.len() != dim {
            Err(ConfigurationError::DimensionMismatch)
        } else {
            Ok(Point { coords })
        }
    }

    /// The coordinates of the point.
    pub fn coords(&self) -> (r: &Vec<i64>)
        ensures
            r@ == self@,
    {
        &self.coords
    }

    /// The dimension of the point.
    pub fn dim(&self) -> (r: usize)
        ensures
            r == self@.len(),
    {
        self.coords.len()
    }

    /// Component-wise vector addition.
    pub fn add(&self, other: &Point) -> (r: Point)
        requires
            self@.len() == other@.len(),
            abs_bounded(self@, 2 * COORD_LIMIT),
            abs_bounded(other@, 2 * COORD_LIMIT),
        ensures
            r@.len() == self@.len(),
            forall|i: int| 0 <= i < r@.len() ==> r@[i] == self@[i] + other@[i],
    {
        let n = self.coords.len();
        let mut coords: Vec<i64> = Vec::new();
        let mut i: usize = 0;
        while i < n
            invariant
                i <= n,
                n == self@.len(),
                n == other@.len(),
                abs_bounded(self@, 2 * COORD_LIMIT),
                abs_bounded(other@, 2 * COORD_LIMIT),
                coords@.len() == i,
                forall|j: int| 0 <= j < i ==> coords@[j] == self@[j] + other@[j],
            decreases n - i,
        {
            coords.push(self.coords[i] + other.coords[i]);
            i = i + 1;
        }
        Point { coords }
    }

    /// Component-wise vector subtraction.
    pub fn sub(&self, other: &Point) -> (r: Point)
        requires
            self@.len() == other@.len(),
            abs_bounded(self@, 2 * COORD_LIMIT),
            abs_bounded(other@, 2 * COORD_LIMIT),
        ensures
            r@.len() == self@.len(),
            forall|i: int| 0 <= i < r@.len() ==> r@[i] == self@[i] - other@[i],
    {
        let n = self.coords.len();
        let mut coords: Vec<i64> = Vec::new();
        let mut i: usize = 0;
        while i < n
            invariant
                i <= n,
                n == self@.len(),
                n == other@.len(),
                abs_bounded(self@, 2 * COORD_LIMIT),
                abs_bounded(other@, 2 * COORD_LIMIT),
                coords@.len() == i,
                forall|j: int| 0 <= j < i ==> coords@[j] == self@[j] - other@[j],
            decreases n - i,
        {
            coords.push(self.coords[i] - other.coords[i]);
            i = i + 1;
        }
        Point { coords }
    }

    /// Multiplication of every coordinate by a scalar.
    pub fn mul(&self, scalar: i64) -> (r: Point)
        requires
            abs_bounded(self@, 2 * COORD_LIMIT),
            -2 * COORD_LIMIT <= scalar <= 2 * COORD_LIMIT,
        ensures
            r@.len() == self@.len(),
            forall|i: int| 0 <= i < r@.len() ==> r@[i] == self@[i] * scalar,
    {
        let n = self.coords.len();
        let mut coords: Vec<i64> = Vec::new();
        let mut i: usize = 0;
        while i < n
            invariant
                i <= n,
                n == self@.len(),
                abs_bounded(self@, 2 * COORD_LIMIT),
                -2 * COORD_LIMIT <= scalar <= 2 * COORD_LIMIT,
                coords@.len() == i,
                forall|j: int| 0 <= j < i ==> coords@[j] == self@[j] * scalar,
            decreases n - i,
        {
            let c = self.coords[i];
            assert(-(4 * COORD_LIMIT * COORD_LIMIT) <= c * scalar <= 4 * COORD_LIMIT
                * COORD_LIMIT) by (nonlinear_arith)
                requires
                    -2 * COORD_LIMIT <= c <= 2 * COORD_LIMIT,
                    -2 * COORD_LIMIT <= scalar <= 2 * COORD_LIMIT,
            ;
            coords.push(c * scalar);
            i = i + 1;
        }
        Point { coords }
    }

    /// Division of every coordinate by a scalar, rounding toward zero.
    pub fn div(&self, scalar: i64) -> (r: Point)
        requires
            scalar != 0,
            abs_bounded(self@, 2 * COORD_LIMIT),
            -2 * COORD_LIMIT <= scalar <= 2 * COORD_LIMIT,
        ensures
            r@.len() == self@.len(),
            forall|i: int| 0 <= i < r@.len() ==> r@[i] == trunc_div(self@[i] as int, scalar as int),
    {
        let n = self.coords.len();
        let abs_scalar: u64 = if scalar < 0 {
            (-scalar) as u64
        } else {
            scalar as u64
        };
        let mut coords: Vec<i64> = Vec::new();
        let mut i: usize = 0;
        while i < n
            invariant
                i <= n,
                n == self@.len(),
                scalar != 0,
                abs_scalar == int_abs(scalar as int),
                abs_bounded(self@, 2 * COORD_LIMIT),
                -2 * COORD_LIMIT <= scalar <= 2 * COORD_LIMIT,
                coords@.len() == i,
                forall|j: int|
                    0 <= j < i ==> coords@[j] == trunc_div(self@[j] as int, scalar as int),
            decreases n - i,
        {
            let c = self.coords[i];
            let abs_c: u64 = if c < 0 {
                (-c) as u64
            } else {
                c as u64
            };
            let q: u64 = abs_c / abs_scalar;
            assert(q <= abs_c);
            let quotient: i64 = if (c < 0) != (scalar < 0) {
                -(q as i64)
            } else {
                q as i64
            };
            assert(quotient == trunc_div(c as int, scalar as int));
            coords.push(quotient);
            i = i + 1;
        }
        Point { coords }
    }

    /// Dot product with another point, accumulated left to right.
    pub fn dot(&self, other: &Point) -> (r: i64)
        requires
            self@.len() == other@.len(),
            self@.len() <= DIM_LIMIT,
            abs_bounded(self@, 2 * COORD_LIMIT),
            abs_bounded(other@, 2 * COORD_LIMIT),
        ensures
            r == dot_spec(self@, other@),
    {
        let n = self.coords.len();
        let mut sum: i64 = 0;
        let mut i: usize = 0;
        while i < n
            invariant
                i <= n,
                n == self@.len(),
                n == other@.len(),
                n <= DIM_LIMIT,
                abs_bounded(self@, 2 * COORD_LIMIT),
                abs_bounded(other@, 2 * COORD_LIMIT),
                sum == dot_spec(self@.take(i as int), other@.take(i as int)),
            decreases n - i,
        {
            proof {
                assert(abs_bounded(self@.take(i as int), 2 * COORD_LIMIT));
                assert(abs_bounded(other@.take(i as int), 2 * COORD_LIMIT));
                lemma_dot_spec_bound(
                    self@.take(i as int),
                    other@.take(i as int),
                    2 * COORD_LIMIT as int,
                    2 * COORD_LIMIT as int,
                );
                let x = self@[i as int] as int;
                let y = other@[i as int] as int;
                assert(-(4 * COORD_LIMIT * COORD_LIMIT) <= x * y <= 4 * COORD_LIMIT
                    * COORD_LIMIT) by (nonlinear_arith)
                    requires
                        -2 * COORD_LIMIT <= x <= 2 * COORD_LIMIT,
                        -2 * COORD_LIMIT <= y <= 2 * COORD_LIMIT,
                ;
                assert((i as int) * (2 * COORD_LIMIT) * (2 * COORD_LIMIT) <= (DIM_LIMIT as int) * (
                2 * COORD_LIMIT) * (2 * COORD_LIMIT)) by (nonlinear_arith)
                    requires
                        0 <= i as int <= DIM_LIMIT as int,
                ;
            }
            let term = self.coords[i] * other.coords[i];
            sum = sum + term;
            proof {
                let pre = self@.take(i as int);
                let post = self@.take(i as int + 1);
                let pre_o = other@.take(i as int);
                let post_o = other@.take(i as int + 1);
                assert(post.drop_last() =~= pre);
                assert(post_o.drop_last() =~= pre_o);
                assert(post.last() == self@[i as int]);
            }
            i = i + 1;
        }
        proof {
            assert(self@.take(n as int) =~= self@);
            assert(other@.take(n as int) =~= other@);
        }
        sum
    }

    /// Squared norm: the dot product of the point with itself.
    pub fn norm_squared(&self) -> (r: i64)
        requires
            self@.len() <= DIM_LIMIT,
            abs_bounded(self@, 2 * COORD_LIMIT),
        ensures
            r == dot_spec(self@, self@),
            0 <= r <= (DIM_LIMIT as int) * (4 * COORD_LIMIT * COORD_LIMIT),
    {
        proof {
            lemma_dot_spec_self_nonneg(self@);
            lemma_dot_spec_bound(self@, self@, 2 * COORD_LIMIT as int, 2 * COORD_LIMIT as int);
            assert((self@.len() as int) * (2 * COORD_LIMIT) * (2 * COORD_LIMIT) <= (
            DIM_LIMIT as int) * (4 * COORD_LIMIT * COORD_LIMIT)) by (nonlinear_arith)
                requires
                    0 <= self@.len() <= DIM_LIMIT,
            ;
        }
        self.dot(self)
    }

    /// Norm of the point: the square root of the squared norm, rounded down
    /// to an integer.
    pub fn norm(&self) -> (r: i64)
        requires
            self@.len() <= DIM_LIMIT,
            abs_bounded(self@, 2 * COORD_LIMIT),
        ensures
            crate::distance::is_floor_sqrt(dot_spec(self@, self@), r as int),
    {
        let n2 = self.norm_squared();
        crate::distance::floor_sqrt(n2)
    }
}

/// Magnitude of an integer.
pub open spec fn int_abs(a: int) -> int {
    if a < 0 {
        -a
    } else {
        a
    }
}

/// Integer division rounding toward zero, the convention executable code
/// uses for signed quotients.
pub open spec fn trunc_div(a: int, b: int) -> int
    recommends
        b != 0,
{
    let q = int_abs(a) / int_abs(b);
    if (a < 0) != (b < 0) {
        -q
    } else {
        q
    }
}

} // verus!
