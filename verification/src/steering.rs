use vstd::arithmetic::div_mod::{
    lemma_div_pos_is_pos, lemma_fundamental_div_mod, lemma_mod_division_less_than_divisor,
};
use vstd::prelude::*;

use crate::distance::{
    ceil_sqrt, dist2_spec, euclidean_distance_squared, is_ceil_sqrt, lemma_dist2_spec_bound,
};
use crate::point::{Point, COORD_LIMIT, DIM_LIMIT};

verus! {

/// Moves from one configuration toward another while respecting a step-size
/// bound; lets a planner account for how far the robot can travel at once.
pub trait Steering: Sized {
    /// The steering strategy's own well-formedness.
    spec fn inv(&self) -> bool;

    /// What the strategy promises about a steering step from `from` toward
    /// `to` that produced `r`.
    spec fn steer_post(&self, from: Seq<i64>, to: Seq<i64>, r: Seq<i64>) -> bool;

    /// Steers from `from` towards `to`, returning the configuration the
    /// robot should move to.
    fn steer(&self, from: &Point, to: &Point) -> (r: Point)
        requires
            self.inv(),
            from@.len() == to@.len(),
            1 <= from@.len() <= DIM_LIMIT,
            from.in_range(),
            to.in_range(),
        ensures
            r@.len() == from@.len(),
            r.in_range(),
            self.steer_post(from@, to@, r@),
    ;
}

/// The displacement bounded straight-line steering applies along one axis:
/// `delta * range / s`, rounded toward zero, where `s` is the distance to
/// the target rounded up.
pub open spec fn steer_delta(delta: int, range: int, s: int) -> int
    recommends
        s > 0,
{
    if delta >= 0 {
        (delta * range) / s
    } else {
        -((-delta * range) / s)
    }
}

/// `r` is exactly the point `range/s` of the way from `from` to `to`,
/// rounded toward `from` along each axis.
pub open spec fn steer_target_spec(
    from: Seq<i64>,
    to: Seq<i64>,
    range: int,
    s: int,
    r: Seq<i64>,
) -> bool {
    &&& r.len() == from.len()
    &&& forall|i: int|
        0 <= i < r.len() ==> (#[trigger] r[i]) == from[i] + steer_delta(
            to[i] - from[i],
            range,
            s,
        )
}

/// If each axis displacement satisfies the scaled bound
/// `(r[i]-f[i])^2 * s^2 <= (t[i]-f[i])^2 * g^2`, the same bound holds for
/// the summed squared distances.
proof fn lemma_scaled_sum_bound(f: Seq<i64>, t: Seq<i64>, r: Seq<i64>, s: int, g: int)
    requires
        f.len() == t.len(),
        f.len() == r.len(),
        forall|i: int|
            0 <= i < f.len() ==> (#[trigger] (r[i] - f[i]) * (r[i] - f[i])) * (s * s) <= ((t[i]
                - f[i]) * (t[i] - f[i])) * (g * g),
    ensures
        dist2_spec(f, r) * (s * s) <= dist2_spec(f, t) * (g * g),
    decreases f.len(),
{
    if f.len() == 0 {
        assert(0 * (s * s) == 0) by (nonlinear_arith);
        assert(0 * (g * g) == 0) by (nonlinear_arith);
    } else {
        let f0 = f.drop_last();
        let t0 = t.drop_last();
        let r0 = r.drop_last();
        lemma_scaled_sum_bound(f0, t0, r0, s, g);
        let i = f.len() - 1;
        let nd = r[i] - f[i];
        let d = t[i] - f[i];
        assert((nd * nd) * (s * s) <= (d * d) * (g * g));
        let a0 = dist2_spec(f0, r0);
        let b0 = dist2_spec(f0, t0);
        assert(dist2_spec(f, r) == a0 + (f.last() - r.last()) * (f.last() - r.last()));
        assert((f.last() - r.last()) * (f.last() - r.last()) == nd * nd) by (nonlinear_arith)
            requires
                f.last() - r.last() == -nd,
        ;
        assert((f.last() - t.last()) * (f.last() - t.last()) == d * d) by (nonlinear_arith)
            requires
                f.last() - t.last() == -d,
        ;
        assert((a0 + nd * nd) * (s * s) == a0 * (s * s) + (nd * nd) * (s * s)) by (
        nonlinear_arith);
        assert((b0 + d * d) * (g * g) == b0 * (g * g) + (d * d) * (g * g)) by (nonlinear_arith);
    }
}

/// Law: a bounded straight-line steering step never travels farther than
/// `range` from its origin, and it covers the full distance to the target
/// exactly when that distance is within `range` — then it returns the
/// target itself.
pub proof fn lemma_steering_bound(st: &EuclideanSteering, from: Seq<i64>, to: Seq<i64>, r: Seq<i64>)
    requires
        st.wf(),
        from.len() == to.len(),
        st.steer_post(from, to, r),
    ensures
        dist2_spec(from, r) <= st.range * st.range,
        dist2_spec(from, to) <= st.range * st.range <==> r == to,
        dist2_spec(from, to) > st.range * st.range ==> dist2_spec(from, r) < dist2_spec(from, to),
{
    let d2 = dist2_spec(from, to);
    if d2 <= st.range * st.range {
        assert(r == to);
        assert(dist2_spec(from, r) == d2);
    } else {
        assert(dist2_spec(from, r) <= st.range * st.range);
        assert(dist2_spec(from, r) < d2);
        assert(r != to) by {
            if r == to {
                assert(dist2_spec(from, r) == d2);
            }
        }
    }
}

/// A steering strategy that moves the robot in a straight line towards the
/// target, covering at most `range` per step.
#[derive(Clone, Debug)]
pub struct EuclideanSteering {
    /// The maximum distance the robot can move in one step.
    pub range: i64,
}

impl EuclideanSteering {
    /// The step range is positive and representable.
    pub open spec fn wf(&self) -> bool {
        1 <= self.range <= COORD_LIMIT
    }

    /// Constructs a new Euclidean steering function with step bound `range`.
    pub fn new(range: i64) -> (r: Self)
        requires
            1 <= range <= COORD_LIMIT,
        ensures
            r.range == range,
            r.wf(),
    {
        EuclideanSteering { range }
    }
}

impl Steering for EuclideanSteering {
    open spec fn inv(&self) -> bool {
        self.wf()
    }

    /// A target within `range` is returned verbatim; a farther target is
    /// approached by exactly the scaled displacement `steer_delta` along
    /// each axis, and the result then stays within `range` of `from`.
    open spec fn steer_post(&self, from: Seq<i64>, to: Seq<i64>, r: Seq<i64>) -> bool {
        let d2 = dist2_spec(from, to);
        &&& (d2 <= self.range * self.range ==> r == to)
        &&& (d2 > self.range * self.range ==> {
            &&& dist2_spec(from, r) <= self.range * self.range
            &&& exists|s: int|
                #[trigger] is_ceil_sqrt(d2, s) && steer_target_spec(
                    from,
                    to,
                    self.range as int,
                    s,
                    r,
                )
        })
    }

    fn steer(&self, from: &Point, to: &Point) -> (r: Point) {
        proof {
            lemma_dist2_spec_bound(from@, to@, COORD_LIMIT as int);
            assert((from@.len() as int) * (4 * COORD_LIMIT * COORD_LIMIT) <= (DIM_LIMIT as int) * (
            4 * COORD_LIMIT * COORD_LIMIT)) by (nonlinear_arith)
                requires
                    0 <= from@.len() <= DIM_LIMIT,
            ;
            let gi = self.range as int;
            assert(0 <= gi * gi <= 0x40000000) by (nonlinear_arith)
                requires
                    0 <= gi <= 0x8000,
            ;
        }
        let d2 = euclidean_distance_squared(from, to);
        let rr = self.range * self.range;
        if d2 <= rr {
            return to.clone();
        }
        let s = ceil_sqrt(d2);
        proof {
            let si = s as int;
            let gi = self.range as int;
            if si <= gi {
                assert(si * si <= gi * gi) by (nonlinear_arith)
                    requires
                        0 <= si <= gi,
                ;
            }
            assert(si > gi);
            if si - 1 >= 0x40000 {
                assert((si - 1) * (si - 1) >= 0x40000 * 0x40000) by (nonlinear_arith)
                    requires
                        si - 1 >= 0x40000,
                ;
            }
            assert(si <= 0x40000);
        }
        let fv = from.coords();
        let tv = to.coords();
        let n = fv.len();
        let mut coords: Vec<i64> = Vec::new();
        let mut i: usize = 0;
        while i < n
            invariant
                i <= n,
                n == from@.len(),
                n == to@.len(),
                fv@ == from@,
                tv@ == to@,
                from.in_range(),
                to.in_range(),
                1 <= self.range <= COORD_LIMIT,
                1 <= self.range < s <= 0x40000,
                coords@.len() == i,
                forall|j: int|
                    0 <= j < i ==> (#[trigger] coords@[j]) == from@[j] + steer_delta(
                        to@[j] - from@[j],
                        self.range as int,
                        s as int,
                    ),
                forall|j: int|
                    0 <= j < i ==> -COORD_LIMIT <= #[trigger] coords@[j] && coords@[j]
                        <= COORD_LIMIT,
            decreases n - i,
        {
            let delta = tv[i] - fv[i];
            let mag: i64 = if delta < 0 {
                -delta
            } else {
                delta
            };
            proof {
                let mi = mag as int;
                let gi = self.range as int;
                assert(0 <= mi * gi <= 0x10000 * 0x8000) by (nonlinear_arith)
                    requires
                        0 <= mi <= 0x10000,
                        0 <= gi <= 0x8000,
                ;
            }
            let prod: u64 = (mag as u64) * (self.range as u64);
            let q64: u64 = prod / (s as u64);
            proof {
                let mi = mag as int;
                let gi = self.range as int;
                let si = s as int;
                let qi = q64 as int;
                lemma_div_pos_is_pos(mi * gi, si);
                lemma_fundamental_div_mod(mi * gi, si);
                lemma_mod_division_less_than_divisor(mi * gi, si);
                assert(qi == (mi * gi) / si);
                assert(qi * si <= mi * gi);
                assert(qi <= mi) by (nonlinear_arith)
                    requires
                        qi * si <= mi * gi,
                        0 <= qi,
                        0 <= mi,
                        0 < gi < si,
                ;
            }
            let q: i64 = q64 as i64;
            let c: i64 = if delta < 0 {
                fv[i] - q
            } else {
                fv[i] + q
            };
            assert(c == from@[i as int] + steer_delta(
                to@[i as int] - from@[i as int],
                self.range as int,
                s as int,
            ));
            coords.push(c);
            i = i + 1;
        }
        let result = Point::new(coords);
        proof {
            let gi = self.range as int;
            let si = s as int;
            assert(steer_target_spec(from@, to@, gi, si, result@));
            assert forall|k: int| 0 <= k < from@.len() implies (#[trigger] (result@[k] - from@[k])
                * (result@[k] - from@[k])) * (si * si) <= ((to@[k] - from@[k]) * (to@[k]
                - from@[k])) * (gi * gi) by {
                let delta = to@[k] - from@[k];
                let m = if delta >= 0 {
                    delta
                } else {
                    -delta
                };
                lemma_div_pos_is_pos(m * gi, si);
                lemma_fundamental_div_mod(m * gi, si);
                lemma_mod_division_less_than_divisor(m * gi, si);
                let q = (m * gi) / si;
                assert(0 <= q && q * si <= m * gi);
                assert(result@[k] - from@[k] == steer_delta(delta, gi, si));
                assert(steer_delta(delta, gi, si) * steer_delta(delta, gi, si) == q * q) by (
                nonlinear_arith)
                    requires
                        steer_delta(delta, gi, si) == q || steer_delta(delta, gi, si) == -q,
                ;
                assert((q * q) * (si * si) <= (m * m) * (gi * gi)) by (nonlinear_arith)
                    requires
                        0 <= q,
                        0 <= si,
                        0 <= m,
                        0 <= gi,
                        q * si <= m * gi,
                ;
                assert(delta * delta == m * m) by (nonlinear_arith)
                    requires
                        delta == m || delta == -m,
                ;
            }
            lemma_scaled_sum_bound(from@, to@, result@, si, gi);
            assert(dist2_spec(from@, to@) <= si * si);
            assert(dist2_spec(from@, to@) * (gi * gi) <= (si * si) * (gi * gi)) by (
            nonlinear_arith)
                requires
                    dist2_spec(from@, to@) <= si * si,
                    0 <= gi * gi,
            ;
            assert(dist2_spec(from@, result@) <= gi * gi) by (nonlinear_arith)
                requires
                    dist2_spec(from@, result@) * (si * si) <= (si * si) * (gi * gi),
                    0 < si * si,
            ;
            assert(is_ceil_sqrt(dist2_spec(from@, to@), si) && steer_target_spec(
                from@,
                to@,
                gi,
                si,
                result@,
            ));
        }
        result
    }
}

} // verus!
