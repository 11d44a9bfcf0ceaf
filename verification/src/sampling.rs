use vstd::prelude::*;

use crate::errors::ConfigurationError;
use crate::point::{Point, COORD_LIMIT, DIM_LIMIT};
use crate::rng::{draw_inclusive, entropy_rng, seeded_rng};

verus! {

/// Produces candidate configurations for the planner, mutating internal
/// random state on each draw.
pub trait SamplingDistribution: Sized {
    /// The dimension of the configurations the distribution produces.
    spec fn dim(&self) -> nat;

    /// The distribution's own well-formedness.
    spec fn inv(&self) -> bool;

    /// What one draw promises, relating the state before (`self`), the
    /// state after (`next`), and the sampled configuration `r`.
    spec fn sample_post(&self, next: Self, r: Seq<i64>) -> bool;

    /// Samples a configuration from the distribution.
    fn sample(&mut self) -> (r: Point)
        requires
            old(self).inv(),
        ensures
            final(self).inv(),
            final(self).dim() == old(self).dim(),
            r.wf(old(self).dim()),
            old(self).sample_post(*final(self), r@),
    ;
}

/// A distribution that draws every axis independently and uniformly from an
/// inclusive per-axis range.
pub struct UniformDistribution {
    /// Per-axis inclusive lower bounds.
    pub lows: Vec<i64>,
    /// Per-axis inclusive upper bounds.
    pub highs: Vec<i64>,
    /// The random generator the draws consume.
    pub rng: rand::rngs::StdRng,
}

impl UniformDistribution {
    /// Axis `i` has a nonempty, representable range.
    pub open spec fn axis_ok(&self, i: int) -> bool {
        -COORD_LIMIT <= self.lows@[i] <= self.highs@[i] <= COORD_LIMIT
    }

    /// The per-axis ranges are nonempty and representable.
    pub open spec fn wf(&self) -> bool {
        &&& 1 <= self.lows@.len() <= DIM_LIMIT
        &&& self.highs@.len() == self.lows@.len()
        &&& forall|i: int| 0 <= i < self.lows@.len() ==> #[trigger] self.axis_ok(i)
    }

    /// `p` lies inside the sampling box, axis by axis.
    pub open spec fn in_box(&self, p: Seq<i64>) -> bool {
        &&& p.len() == self.lows@.len()
        &&& forall|i: int|
            0 <= i < p.len() ==> self.lows@[i] <= #[trigger] p[i] && p[i] <= self.highs@[i]
    }

    /// The per-axis range list is usable: nonempty, of a representable
    /// dimension, and with `low <= high` on every axis.
    pub open spec fn ranges_wf(ranges: Seq<(i64, i64)>) -> bool {
        &&& 1 <= ranges.len() <= DIM_LIMIT
        &&& forall|i: int|
            0 <= i < ranges.len() ==> -COORD_LIMIT <= (#[trigger] ranges[i]).0 && ranges[i].0
                <= ranges[i].1 && ranges[i].1 <= COORD_LIMIT
    }

    /// Constructs a uniform distribution over the given per-axis inclusive
    /// ranges, drawing from an entropy-seeded generator.
    pub fn new(ranges: Vec<(i64, i64)>) -> (r: Self)
        requires
            Self::ranges_wf(ranges@),
        ensures
            r.wf(),
            r.lows@.len() == ranges@.len(),
            forall|i: int|
                0 <= i < ranges@.len() ==> r.lows@[i] == (#[trigger] ranges@[i]).0 && r.highs@[i]
                    == ranges@[i].1,
    {
        Self::from_rng(ranges, entropy_rng())
    }

    /// Constructs a uniform distribution as `new` does, but drawing from a
    /// generator seeded with `seed`, for reproducible runs.
    pub fn with_seed(ranges: Vec<(i64, i64)>, seed: u64) -> (r: Self)
        requires
            Self::ranges_wf(ranges@),
        ensures
            r.wf(),
            r.lows@.len() == ranges@.len(),
            forall|i: int|
                0 <= i < ranges@.len() ==> r.lows@[i] == (#[trigger] ranges@[i]).0 && r.highs@[i]
                    == ranges@[i].1,
    {
        Self::from_rng(ranges, seeded_rng(seed))
    }

    /// Splits the range list into the per-axis bound vectors.
    fn from_rng(ranges: Vec<(i64, i64)>, rng: rand::rngs::StdRng) -> (r: Self)
        requires
            Self::ranges_wf(ranges@),
        ensures
            r.wf(),
            r.lows@.len() == ranges@.len(),
            forall|i: int|
                0 <= i < ranges@.len() ==> r.lows@[i] == (#[trigger] ranges@[i]).0 && r.highs@[i]
                    == ranges@[i].1,
    {
        let n = ranges.len();
        let mut lows: Vec<i64> = Vec::new();
        let mut highs: Vec<i64> = Vec::new();
        let mut i: usize = 0;
        while i < n
            invariant
                i <= n,
                n == ranges@.len(),
                Self::ranges_wf(ranges@),
                lows@.len() == i,
                highs@.len() == i,
                forall|j: int|
                    0 <= j < i ==> lows@[j] == (#[trigger] ranges@[j]).0 && highs@[j]
                        == ranges@[j].1,
            decreases n - i,
        {
            let (low, high) = ranges[i];
            lows.push(low);
            highs.push(high);
            i = i + 1;
        }
        let r = UniformDistribution { lows, highs, rng };
        proof {
            assert forall|k: int| 0 <= k < r.lows@.len() implies #[trigger] r.axis_ok(k) by {
                assert(-COORD_LIMIT <= ranges@[k].0 && ranges@[k].0 <= ranges@[k].1
                    && ranges@[k].1 <= COORD_LIMIT);
            }
        }
        r
    }
}

impl SamplingDistribution for UniformDistribution {
    open spec fn dim(&self) -> nat {
        self.lows@.len()
    }

    open spec fn inv(&self) -> bool {
        self.wf()
    }

    /// A draw leaves the box unchanged and lands inside it.
    open spec fn sample_post(&self, next: Self, r: Seq<i64>) -> bool {
        &&& next.lows@ == self.lows@
        &&& next.highs@ == self.highs@
        &&& self.in_box(r)
    }

    fn sample(&mut self) -> (r: Point) {
        let n = self.lows.len();
        let mut coords: Vec<i64> = Vec::new();
        let mut i: usize = 0;
        while i < n
            invariant
                i <= n,
                old(self).wf(),
                n == self.lows@.len(),
                self.lows@ == old(self).lows@,
                self.highs@ == old(self).highs@,
                coords@.len() == i,
                forall|j: int|
                    0 <= j < i ==> old(self).lows@[j] <= #[trigger] coords@[j] && coords@[j] <= old(
                        self,
                    ).highs@[j],
            decreases n - i,
        {
            let low = self.lows[i];
            let high = self.highs[i];
            proof {
                assert(old(self).axis_ok(i as int));
            }
            let v = draw_inclusive(&mut self.rng, low, high);
            coords.push(v);
            i = i + 1;
        }
        proof {
            assert forall|k: int| 0 <= k < self.lows@.len() implies #[trigger] self.axis_ok(k) by {
                assert(old(self).axis_ok(k));
            }
            assert forall|k: int| 0 <= k < coords@.len() implies -COORD_LIMIT
                <= #[trigger] coords@[k] && coords@[k] <= COORD_LIMIT by {
                assert(old(self).axis_ok(k));
            }
        }
        Point::new(coords)
    }
}

/// Law: with goal bias 1 every draw returns the goal verbatim, and with
/// goal bias 0 every draw is a point of the sampling box — so a goal lying
/// outside the box is then never returned. (For a bias strictly between 0
/// and 1, which draws return the goal is random; the empirical fraction is
/// exercised by tests.)
pub proof fn lemma_goal_bias_extremes(
    sd: &GoalBiasedUniformDistribution,
    next: &GoalBiasedUniformDistribution,
    r: Seq<i64>,
)
    requires
        sd.wf(),
        sd.sample_post(*next, r),
    ensures
        sd.bias_num == sd.bias_den ==> r == sd.goal@,
        sd.bias_num == 0 ==> sd.uniform.in_box(r),
        sd.bias_num == 0 && !sd.uniform.in_box(sd.goal@) ==> r != sd.goal@,
{
}

/// A uniform distribution that, with a fixed probability, returns the goal
/// configuration verbatim instead of a uniform draw.
pub struct GoalBiasedUniformDistribution {
    /// The wrapped uniform distribution.
    pub uniform: UniformDistribution,
    /// The goal configuration occasionally returned verbatim.
    pub goal: Point,
    /// Numerator of the goal-bias probability.
    pub bias_num: u32,
    /// Denominator of the goal-bias probability.
    pub bias_den: u32,
    /// The random generator deciding whether to return the goal.
    pub rng: rand::rngs::StdRng,
}

impl GoalBiasedUniformDistribution {
    /// The wrapped box is well formed, the goal matches its dimension, and
    /// the bias fraction `bias_num / bias_den` lies in [0, 1].
    pub open spec fn wf(&self) -> bool {
        &&& self.uniform.wf()
        &&& self.goal.wf(self.uniform.lows@.len())
        &&& 1 <= self.bias_den
        &&& self.bias_num <= self.bias_den
    }

    /// Constructs a goal-biased uniform distribution with goal-bias
    /// probability `bias_num / bias_den`, drawing from entropy-seeded
    /// generators. Fails with a configuration error exactly when the bias
    /// fraction does not denote a probability in [0, 1].
    pub fn new(ranges: Vec<(i64, i64)>, goal: Point, bias_num: u32, bias_den: u32) -> (r: Result<
        Self,
        ConfigurationError,
    >)
        requires
            UniformDistribution::ranges_wf(ranges@),
            goal@.len() == ranges@.len(),
            goal.in_range(),
        ensures
            r is Ok <==> (1 <= bias_den && bias_num <= bias_den),
            r is Err ==> r->Err_0 == ConfigurationError::GoalBiasOutOfRange,
            r is Ok ==> (r->Ok_0).wf() && (r->Ok_0).goal@ == goal@ && (r->Ok_0).bias_num
                == bias_num && (r->Ok_0).bias_den == bias_den && (r->Ok_0).uniform.lows@.len()
                == ranges@.len(),
    {
        if bias_den < 1 || bias_num > bias_den {
            return Err(ConfigurationError::GoalBiasOutOfRange);
        }
        let uniform = UniformDistribution::new(ranges);
        Ok(
            GoalBiasedUniformDistribution {
                uniform,
                goal,
                bias_num,
                bias_den,
                rng: entropy_rng(),
            },
        )
    }

    /// Constructs a goal-biased uniform distribution as `new` does, but
    /// drawing from generators seeded from `seed`, for reproducible runs.
    pub fn with_seed(
        ranges: Vec<(i64, i64)>,
        goal: Point,
        bias_num: u32,
        bias_den: u32,
        seed: u64,
    ) -> (r: Result<Self, ConfigurationError>)
        requires
            UniformDistribution::ranges_wf(ranges@),
            goal@.len() == ranges@.len(),
            goal.in_range(),
        ensures
            r is Ok <==> (1 <= bias_den && bias_num <= bias_den),
            r is Err ==> r->Err_0 == ConfigurationError::GoalBiasOutOfRange,
            r is Ok ==> (r->Ok_0).wf() && (r->Ok_0).goal@ == goal@ && (r->Ok_0).bias_num
                == bias_num && (r->Ok_0).bias_den == bias_den && (r->Ok_0).uniform.lows@.len()
                == ranges@.len(),
    {
        if bias_den < 1 || bias_num > bias_den {
            return Err(ConfigurationError::GoalBiasOutOfRange);
        }
        let uniform = UniformDistribution::with_seed(ranges, seed ^ 0x9e3779b97f4a7c15);
        Ok(
            GoalBiasedUniformDistribution {
                uniform,
                goal,
                bias_num,
                bias_den,
                rng: seeded_rng(seed),
            },
        )
    }
}

impl SamplingDistribution for GoalBiasedUniformDistribution {
    open spec fn dim(&self) -> nat {
        self.uniform.lows@.len()
    }

    open spec fn inv(&self) -> bool {
        self.wf()
    }

    /// A draw keeps the goal, the bias and the box; it returns either the
    /// goal verbatim or a point of the box; with bias 1 it always returns
    /// the goal, and with bias 0 always a point of the box.
    open spec fn sample_post(&self, next: Self, r: Seq<i64>) -> bool {
        &&& next.goal@ == self.goal@
        &&& next.bias_num == self.bias_num
        &&& next.bias_den == self.bias_den
        &&& next.uniform.lows@ == self.uniform.lows@
        &&& next.uniform.highs@ == self.uniform.highs@
        &&& (r == self.goal@ || self.uniform.in_box(r))
        &&& (self.bias_num == self.bias_den ==> r == self.goal@)
        &&& (self.bias_num == 0 ==> self.uniform.in_box(r))
    }

    fn sample(&mut self) -> (r: Point) {
        let den_minus_one: i64 = (self.bias_den - 1) as i64;
        let t = draw_inclusive(&mut self.rng, 0, den_minus_one);
        if t < self.bias_num as i64 {
            self.goal.clone()
        } else {
            self.uniform.sample()
        }
    }
}

} // verus!
