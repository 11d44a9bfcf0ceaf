use vstd::prelude::*;

use crate::collision::ValidityChecker;
use crate::distance::{dist2_spec, euclidean_distance_squared};
use crate::neighbors::{entries_compatible, is_min_at, NearestNeighbors};
use crate::point::Point;
use crate::sampling::SamplingDistribution;
use crate::steering::Steering;

verus! {

/// A node in the RRT tree: a configuration and the index of its parent
/// (`None` exactly for the root). Nodes live in an append-only sequence
/// whose positions are their permanent identities.
pub struct Node {
    /// The configuration this node represents.
    pub point: Point,
    /// The index of the parent node; `None` for the root.
    pub parent: Option<usize>,
}

impl Clone for Node {
    /// Cloning a node preserves its configuration and parent link.
    fn clone(&self) -> (r: Self)
        ensures
            r.point@ == self.point@,
            r.parent == self.parent,
    {
        Node { point: self.point.clone(), parent: self.parent }
    }
}

impl Node {
    /// Constructs a new node.
    pub fn new(point: Point, parent: Option<usize>) -> (r: Self)
        ensures
            r.point@ == point@,
            r.parent == parent,
    {
        Node { point, parent }
    }

    /// The node's configuration.
    pub fn point(&self) -> (r: &Point)
        ensures
            r@ == self.point@,
    {
        &self.point
    }

    /// The node's parent index, `None` for the root.
    pub fn parent(&self) -> (r: Option<usize>)
        ensures
            r == self.parent,
    {
        self.parent
    }
}

/// The coordinate sequences of a sequence of points.
pub open spec fn point_views(s: Seq<Point>) -> Seq<Seq<i64>> {
    s.map_values(|p: Point| p@)
}

/// The coordinates along the parent chain from the root to node `i`,
/// root first.
pub open spec fn root_path_spec(nodes: Seq<Node>, i: int) -> Seq<Seq<i64>>
    decreases i,
{
    if 0 <= i < nodes.len() {
        match nodes[i].parent {
            Some(p) => if 0 <= p < i {
                root_path_spec(nodes, p as int) + seq![nodes[i].point@]
            } else {
                seq![nodes[i].point@]
            },
            None => seq![nodes[i].point@],
        }
    } else {
        Seq::empty()
    }
}

/// What one expansion step does, given the drawn sample and the planner's
/// collaborators: for some entry `j` of the index at minimal squared
/// distance from the sample, and the steering result `p` from that node's
/// configuration toward the sample, either `p` and its connecting edge are
/// admissible and exactly the node `(p, parent j)` is appended — becoming
/// the solution if it is the first to land within goal tolerance — or one
/// of them is not admissible and the tree and solution are unchanged.
pub open spec fn expansion_post<VC: ValidityChecker, ST: Steering>(
    contents: Seq<(Seq<i64>, usize)>,
    nodes: Seq<Node>,
    steering: ST,
    validity_checker: VC,
    goal: Seq<i64>,
    tol: int,
    solution: Option<usize>,
    post_nodes: Seq<Node>,
    post_solution: Option<usize>,
    sample: Seq<i64>,
) -> bool {
    exists|j: int, p: Seq<i64>|
        {
            &&& is_min_at(contents, sample, j)
            &&& #[trigger] steering.steer_post(nodes[j].point@, sample, p)
            &&& if validity_checker.point_ok(p) && validity_checker.edge_ok(
                nodes[j].point@,
                p,
            ) {
                &&& post_nodes.len() == nodes.len() + 1
                &&& post_nodes[nodes.len() as int].point@ == p
                &&& post_nodes[nodes.len() as int].parent == Some(j as usize)
                &&& post_solution == (if dist2_spec(p, goal) <= tol * tol && solution is None {
                    Some(nodes.len() as usize)
                } else {
                    solution
                })
            } else {
                &&& post_nodes == nodes
                &&& post_solution == solution
            }
        }
}

/// A Rapidly-exploring Random Tree planner, generic in its validity
/// checker, sampling distribution, steering function and nearest-neighbor
/// index.
pub struct RRT<VC, SD, ST, NN> where
    VC: ValidityChecker,
    SD: SamplingDistribution,
    ST: Steering,
    NN: NearestNeighbors,
 {
    /// The goal configuration.
    pub goal: Point,
    /// Reaching within this distance of the goal counts as solved.
    pub goal_tolerance: i64,
    /// The tree, root first; a node's index is its identity.
    pub nodes: Vec<Node>,
    /// Index of the first node found within goal tolerance, if any.
    pub solution: Option<usize>,
    /// Decides which configurations and edges are admissible.
    pub validity_checker: VC,
    /// Produces candidate configurations.
    pub sampling_distribution: SD,
    /// Bounds each expansion step.
    pub steering: ST,
    /// Answers proximity queries over the tree's configurations.
    pub nearest_neighbors: NN,
}

impl<VC, SD, ST, NN> RRT<VC, SD, ST, NN> where
    VC: ValidityChecker,
    SD: SamplingDistribution,
    ST: Steering,
    NN: NearestNeighbors,
 {
    /// The dimension of the configuration space.
    pub open spec fn dim(&self) -> nat {
        self.validity_checker.dim()
    }

    /// `post` is an allowed outcome of one expansion step of `self` from
    /// the drawn `sample`; see `expansion_post`.
    pub open spec fn grow_post(self, post: Self, sample: Seq<i64>) -> bool {
        expansion_post(
            self.nearest_neighbors.contents(),
            self.nodes@,
            self.steering,
            self.validity_checker,
            self.goal@,
            self.goal_tolerance as int,
            self.solution,
            post.nodes@,
            post.solution,
            sample,
        )
    }

    /// The tree is a single-rooted acyclic parent-linked arena: node 0 is
    /// the only root, every other node points to an earlier parent, every
    /// configuration is well formed, and every non-root node's
    /// configuration and incoming edge passed the validity checker.
    pub open spec fn tree_wf(&self) -> bool {
        let nodes = self.nodes@;
        &&& nodes.len() >= 1
        &&& nodes[0].parent is None
        &&& forall|i: int|
            1 <= i < nodes.len() ==> ((#[trigger] nodes[i].parent) matches Some(p) && p < i)
        &&& forall|i: int| 0 <= i < nodes.len() ==> (#[trigger] nodes[i].point).wf(self.dim())
        &&& forall|i: int|
            1 <= i < nodes.len() ==> self.validity_checker.point_ok(
                (#[trigger] nodes[i].point)@,
            ) && self.validity_checker.edge_ok(
                nodes[nodes[i].parent->Some_0 as int].point@,
                nodes[i].point@,
            )
    }

    /// The planner's full invariant: a well-formed tree, well-formed
    /// collaborators agreeing on the dimension, a recorded solution only
    /// within goal tolerance, and a nearest-neighbor index that mirrors the
    /// tree exactly.
    pub open spec fn wf(&self) -> bool {
        &&& self.tree_wf()
        &&& self.validity_checker.inv()
        &&& self.sampling_distribution.inv()
        &&& self.steering.inv()
        &&& self.sampling_distribution.dim() == self.dim()
        &&& self.goal.wf(self.dim())
        &&& 0 <= self.goal_tolerance <= 0x7fffffff
        &&& (self.solution matches Some(s) ==> s < self.nodes@.len() && dist2_spec(
            self.nodes@[s as int].point@,
            self.goal@,
        ) <= self.goal_tolerance * self.goal_tolerance)
        &&& self.nearest_neighbors.contents().len() == self.nodes@.len()
        &&& forall|i: int|
            0 <= i < self.nodes@.len() ==> (#[trigger] self.nearest_neighbors.contents()[i]).0
                == self.nodes@[i].point@ && self.nearest_neighbors.contents()[i].1 as int == i
    }

    /// Constructs a planner whose tree holds exactly the start
    /// configuration.
    pub fn new(
        start: Point,
        goal: Point,
        goal_tolerance: i64,
        validity_checker: VC,
        sampling_distribution: SD,
        steering: ST,
    ) -> (r: Self)
        requires
            validity_checker.inv(),
            sampling_distribution.inv(),
            steering.inv(),
            sampling_distribution.dim() == validity_checker.dim(),
            start.wf(validity_checker.dim()),
            goal.wf(validity_checker.dim()),
            0 <= goal_tolerance <= 0x7fffffff,
        ensures
            r.wf(),
            r.nodes@.len() == 1,
            r.nodes@[0].point@ == start@,
            r.nodes@[0].parent is None,
            r.solution is None,
            r.goal@ == goal@,
            r.goal_tolerance == goal_tolerance,
            r.validity_checker == validity_checker,
            r.steering == steering,
            r.sampling_distribution == sampling_distribution,
    {
        let mut nearest_neighbors = NN::new();
        nearest_neighbors.add(start.clone(), 0);
        let root = Node::new(start, None);
        let mut nodes: Vec<Node> = Vec::new();
        nodes.push(root);
        RRT {
            goal,
            goal_tolerance,
            nodes,
            solution: None,
            validity_checker,
            sampling_distribution,
            steering,
            nearest_neighbors,
        }
    }

    /// Appends a validated node to the tree and registers it in the
    /// nearest-neighbor index.
    fn add_node(&mut self, node: Node) -> (idx: usize)
        requires
            old(self).wf(),
            node.point.wf(old(self).dim()),
            node.parent matches Some(p) && p < old(self).nodes@.len(),
            old(self).validity_checker.point_ok(node.point@),
            old(self).validity_checker.edge_ok(
                old(self).nodes@[node.parent->Some_0 as int].point@,
                node.point@,
            ),
        ensures
            final(self).wf(),
            idx == old(self).nodes@.len(),
            final(self).nodes@.len() == old(self).nodes@.len() + 1,
            forall|i: int|
                0 <= i < old(self).nodes@.len() ==> final(self).nodes@[i] == old(self).nodes@[i],
            final(self).nodes@[idx as int].point@ == node.point@,
            final(self).nodes@[idx as int].parent == node.parent,
            final(self).solution == old(self).solution,
            final(self).goal@ == old(self).goal@,
            final(self).goal_tolerance == old(self).goal_tolerance,
            final(self).validity_checker == old(self).validity_checker,
            final(self).steering == old(self).steering,
            final(self).sampling_distribution == old(self).sampling_distribution,
    {
        let idx = self.nodes.len();
        proof {
            assert(entries_compatible(self.nearest_neighbors.contents(), node.point@)) by {
                assert forall|j: int|
                    0 <= j < self.nearest_neighbors.contents().len() implies (
                #[trigger] self.nearest_neighbors.contents()[j]).0.len() == node.point@.len()
                    && crate::point::abs_bounded(
                    self.nearest_neighbors.contents()[j].0,
                    crate::point::COORD_LIMIT as int,
                ) by {
                    assert(self.nearest_neighbors.contents()[j].0 == self.nodes@[j].point@);
                    assert(self.nodes@[j].point.wf(self.dim()));
                }
            }
        }
        let stored = node.point.clone();
        self.nearest_neighbors.add(stored, idx);
        self.nodes.push(node);
        idx
    }

    /// Expands the tree by one iteration: sample, find the nearest node,
    /// steer toward the sample, and append the new node if its
    /// configuration and connecting edge are admissible; record the first
    /// node that lands within goal tolerance as the solution.
    ///
    /// An iteration whose candidate fails validation changes nothing: that
    /// is the algorithm's normal operation, not a failure. The drawn
    /// sample is random, so the outcome is stated existentially: some
    /// sample the distribution could have produced led, through `grow`,
    /// to the new state.
    pub fn iteration(&mut self)
        requires
            old(self).wf(),
        ensures
            final(self).wf(),
            final(self).dim() == old(self).dim(),
            final(self).goal@ == old(self).goal@,
            final(self).goal_tolerance == old(self).goal_tolerance,
            final(self).validity_checker == old(self).validity_checker,
            final(self).steering == old(self).steering,
            final(self).nodes@.len() >= old(self).nodes@.len(),
            final(self).nodes@.len() <= old(self).nodes@.len() + 1,
            forall|i: int|
                0 <= i < old(self).nodes@.len() ==> final(self).nodes@[i] == old(self).nodes@[i],
            old(self).solution is Some ==> final(self).solution == old(self).solution,
            final(self).solution is None ==> old(self).solution is None,
            (exists|s: Seq<i64>|
                #[trigger] old(self).sampling_distribution.sample_post(
                    final(self).sampling_distribution,
                    s,
                ) && old(self).grow_post(*final(self), s)),
    {
        let ghost pre = *self;
        let sample = self.sampling_distribution.sample();
        let ghost drawn = sample@;
        self.grow(sample);
        proof {
            assert(pre.sampling_distribution.sample_post(self.sampling_distribution, drawn));
            assert(pre.grow_post(*self, drawn));
        }
    }

    /// The deterministic part of one expansion, from an already drawn
    /// sample: find the nearest tree node, steer from it toward the
    /// sample, and if the steered configuration and its connecting edge
    /// are admissible, append it as a child of that node, recording the
    /// first node within goal tolerance as the solution; otherwise change
    /// nothing. `grow_post` fixes the outcome for every sample value.
    pub fn grow(&mut self, sample: Point)
        requires
            old(self).wf(),
            sample.wf(old(self).dim()),
        ensures
            final(self).wf(),
            final(self).dim() == old(self).dim(),
            final(self).goal@ == old(self).goal@,
            final(self).goal_tolerance == old(self).goal_tolerance,
            final(self).validity_checker == old(self).validity_checker,
            final(self).steering == old(self).steering,
            final(self).sampling_distribution == old(self).sampling_distribution,
            final(self).nodes@.len() >= old(self).nodes@.len(),
            final(self).nodes@.len() <= old(self).nodes@.len() + 1,
            forall|i: int|
                0 <= i < old(self).nodes@.len() ==> final(self).nodes@[i] == old(self).nodes@[i],
            old(self).solution is Some ==> final(self).solution == old(self).solution,
            final(self).solution is None ==> old(self).solution is None,
            old(self).grow_post(*final(self), sample@),
    {
        proof {
            assert(entries_compatible(self.nearest_neighbors.contents(), sample@)) by {
                assert forall|j: int|
                    0 <= j < self.nearest_neighbors.contents().len() implies (
                #[trigger] self.nearest_neighbors.contents()[j]).0.len() == sample@.len()
                    && crate::point::abs_bounded(
                    self.nearest_neighbors.contents()[j].0,
                    crate::point::COORD_LIMIT as int,
                ) by {
                    assert(self.nearest_neighbors.contents()[j].0 == self.nodes@[j].point@);
                    assert(self.nodes@[j].point.wf(self.dim()));
                }
            }
        }
        let nearest = self.nearest_neighbors.nearest_one(&sample);
        let nearest_index: usize = match nearest {
            Some(idx) => idx,
            None => {
                // Unreachable: the tree always holds at least the root.
                proof {
                    assert(false);
                }
                return ;
            },
        };
        proof {
            let contents = self.nearest_neighbors.contents();
            let j = choose|j: int|
                is_min_at(contents, sample@, j) && nearest == Some((#[trigger] contents[j]).1);
            assert(contents[j].1 as int == j);
            assert(nearest_index as int == j);
            assert(nearest_index < self.nodes@.len());
            assert(is_min_at(contents, sample@, nearest_index as int));
        }
        let nearest_point = self.nodes[nearest_index].point.clone();
        let new_point = self.steering.steer(&nearest_point, &sample);
        let ghost gj = nearest_index as int;
        let ghost gp = new_point@;
        if !self.validity_checker.is_point_valid(&new_point) {
            proof {
                assert(is_min_at(old(self).nearest_neighbors.contents(), sample@, gj));
                assert(old(self).steering.steer_post(old(self).nodes@[gj].point@, sample@, gp));
                assert(!old(self).validity_checker.point_ok(gp));
                assert(old(self).grow_post(*self, sample@));
            }
            return ;
        }
        if !self.validity_checker.is_edge_valid(&nearest_point, &new_point) {
            proof {
                assert(is_min_at(old(self).nearest_neighbors.contents(), sample@, gj));
                assert(old(self).steering.steer_post(old(self).nodes@[gj].point@, sample@, gp));
                assert(!old(self).validity_checker.edge_ok(old(self).nodes@[gj].point@, gp));
                assert(old(self).grow_post(*self, sample@));
            }
            return ;
        }
        proof {
            let t = self.goal_tolerance as int;
            assert(0 <= t * t <= 0x4000000000000000) by (nonlinear_arith)
                requires
                    0 <= t <= 0x7fffffff,
            ;
        }
        let d2 = euclidean_distance_squared(&new_point, &self.goal);
        let node = Node::new(new_point, Some(nearest_index));
        let new_index = self.add_node(node);
        if d2 <= self.goal_tolerance * self.goal_tolerance && self.solution.is_none() {
            self.solution = Some(new_index);
        }
        proof {
            assert(is_min_at(old(self).nearest_neighbors.contents(), sample@, gj));
            assert(old(self).steering.steer_post(old(self).nodes@[gj].point@, sample@, gp));
            assert(self.nodes@[old(self).nodes@.len() as int].point@ == gp);
            assert(self.nodes@[old(self).nodes@.len() as int].parent == Some(gj as usize));
            assert(old(self).grow_post(*self, sample@));
        }
    }

    /// Attempts to find a solution within a maximum number of iterations,
    /// stopping immediately once solved; returns whether a solution is
    /// recorded by then.
    pub fn solve(&mut self, max_iterations: u32) -> (r: bool)
        requires
            old(self).wf(),
        ensures
            final(self).wf(),
            final(self).goal@ == old(self).goal@,
            final(self).goal_tolerance == old(self).goal_tolerance,
            final(self).validity_checker == old(self).validity_checker,
            final(self).steering == old(self).steering,
            final(self).nodes@.len() >= old(self).nodes@.len(),
            final(self).nodes@.len() <= old(self).nodes@.len() + max_iterations,
            forall|i: int|
                0 <= i < old(self).nodes@.len() ==> final(self).nodes@[i] == old(self).nodes@[i],
            old(self).solution is Some ==> final(self).solution == old(self).solution,
            max_iterations > 0 ==> r == (final(self).solution is Some),
            max_iterations == 0 ==> r == false && *final(self) == *old(self),
    {
        let mut i: u32 = 0;
        while i < max_iterations
            invariant
                i <= max_iterations,
                i == 0 ==> *self == *old(self),
                i > 0 ==> !(self.solution is Some),
                self.wf(),
                self.goal@ == old(self).goal@,
                self.goal_tolerance == old(self).goal_tolerance,
                self.validity_checker == old(self).validity_checker,
                self.steering == old(self).steering,
                self.nodes@.len() >= old(self).nodes@.len(),
                self.nodes@.len() <= old(self).nodes@.len() + i,
                forall|j: int|
                    0 <= j < old(self).nodes@.len() ==> self.nodes@[j] == old(self).nodes@[j],
                old(self).solution is Some ==> self.solution == old(self).solution,
            decreases max_iterations - i,
        {
            self.iteration();
            if self.solved() {
                return true;
            }
            i = i + 1;
        }
        false
    }

    /// Runs up to `iterations` iterations, stopping early once solved, and
    /// returns whether a solution is recorded by then. A separate entry
    /// point for callers that drive growth in small increments.
    pub fn run_iterations(&mut self, iterations: u32) -> (r: bool)
        requires
            old(self).wf(),
        ensures
            final(self).wf(),
            final(self).goal@ == old(self).goal@,
            final(self).goal_tolerance == old(self).goal_tolerance,
            final(self).validity_checker == old(self).validity_checker,
            final(self).steering == old(self).steering,
            final(self).nodes@.len() >= old(self).nodes@.len(),
            final(self).nodes@.len() <= old(self).nodes@.len() + iterations,
            forall|i: int|
                0 <= i < old(self).nodes@.len() ==> final(self).nodes@[i] == old(self).nodes@[i],
            old(self).solution is Some ==> final(self).solution == old(self).solution,
            iterations > 0 ==> r == (final(self).solution is Some),
            iterations == 0 ==> r == false && *final(self) == *old(self),
    {
        let mut i: u32 = 0;
        while i < iterations
            invariant
                i <= iterations,
                i == 0 ==> *self == *old(self),
                i > 0 ==> !(self.solution is Some),
                self.wf(),
                self.goal@ == old(self).goal@,
                self.goal_tolerance == old(self).goal_tolerance,
                self.validity_checker == old(self).validity_checker,
                self.steering == old(self).steering,
                self.nodes@.len() >= old(self).nodes@.len(),
                self.nodes@.len() <= old(self).nodes@.len() + i,
                forall|j: int|
                    0 <= j < old(self).nodes@.len() ==> self.nodes@[j] == old(self).nodes@[j],
                old(self).solution is Some ==> self.solution == old(self).solution,
            decreases iterations - i,
        {
            self.iteration();
            if self.solved() {
                return true;
            }
            i = i + 1;
        }
        false
    }

    /// Whether a solution has been recorded.
    pub fn solved(&self) -> (r: bool)
        ensures
            r == (self.solution is Some),
    {
        self.solution.is_some()
    }

    /// The nearest-neighbor index.
    pub fn get_nearest_neighbors(&self) -> (r: &NN)
        ensures
            r == &self.nearest_neighbors,
    {
        &self.nearest_neighbors
    }

    /// The sampling distribution.
    pub fn get_sampling_distribution(&self) -> (r: &SD)
        ensures
            r == &self.sampling_distribution,
    {
        &self.sampling_distribution
    }

    /// The validity checker.
    pub fn get_validity_checker(&self) -> (r: &VC)
        ensures
            r == &self.validity_checker,
    {
        &self.validity_checker
    }

    /// The tree's nodes, root first.
    pub fn get_tree(&self) -> (r: &Vec<Node>)
        ensures
            r == &self.nodes,
    {
        &self.nodes
    }

    /// The path from the start to the solution node, if solved: the parent
    /// chain of the solution node, reversed to run start-to-goal. `None`
    /// until solved.
    pub fn get_path(&self) -> (r: Option<Vec<Point>>)
        requires
            self.wf(),
        ensures
            (r is Some) <==> (self.solution is Some),
            r matches Some(path) ==> point_views(path@) == root_path_spec(
                self.nodes@,
                self.solution->Some_0 as int,
            ),
            r matches Some(path) ==> path@.len() >= 1 && path@[0]@ == self.nodes@[0].point@
                && dist2_spec(path@[path@.len() - 1]@, self.goal@) <= self.goal_tolerance
                * self.goal_tolerance,
            r matches Some(path) ==> forall|k: int|
                0 <= k < path@.len() - 1 ==> #[trigger] self.validity_checker.edge_ok(
                    path@[k]@,
                    path@[k + 1]@,
                ),
    {
        let sol: usize = match self.solution {
            Some(s) => s,
            None => {
                return None;
            },
        };
        let mut rev: Vec<Point> = Vec::new();
        let mut cur: usize = sol;
        rev.push(self.nodes[cur].point.clone());
        proof {
            assert(point_views(rev@).reverse() =~= seq![self.nodes@[cur as int].point@]);
        }
        let mut parent_opt: Option<usize> = self.nodes[cur].parent;
        while parent_opt.is_some()
            invariant
                self.wf(),
                cur < self.nodes@.len(),
                parent_opt == self.nodes@[cur as int].parent,
                rev@.len() >= 1,
                root_path_spec(self.nodes@, sol as int) == ancestor_path_spec(
                    self.nodes@,
                    cur as int,
                ) + point_views(rev@).reverse(),
            decreases cur,
        {
            let p: usize = match parent_opt {
                Some(p) => p,
                None => {
                    proof {
                        assert(false);
                    }
                    return None;
                },
            };
            let ghost prev_rev = rev@;
            let ghost prev_cur = cur as int;
            cur = p;
            rev.push(self.nodes[cur].point.clone());
            parent_opt = self.nodes[cur].parent;
            proof {
                assert(point_views(rev@).reverse() =~= seq![self.nodes@[cur as int].point@]
                    + point_views(prev_rev).reverse());
                assert(ancestor_path_spec(self.nodes@, prev_cur) == ancestor_path_spec(
                    self.nodes@,
                    cur as int,
                ) + seq![self.nodes@[cur as int].point@]);
                assert(ancestor_path_spec(self.nodes@, cur as int) + (seq![
                    self.nodes@[cur as int].point@,
                ] + point_views(prev_rev).reverse()) =~= (ancestor_path_spec(
                    self.nodes@,
                    cur as int,
                ) + seq![self.nodes@[cur as int].point@]) + point_views(prev_rev).reverse());
            }
        }
        proof {
            assert(ancestor_path_spec(self.nodes@, cur as int) =~= Seq::<Seq<i64>>::empty());
            assert(Seq::<Seq<i64>>::empty() + point_views(rev@).reverse() =~= point_views(
                rev@,
            ).reverse());
        }
        let n = rev.len();
        let mut path: Vec<Point> = Vec::new();
        let mut k: usize = 0;
        while k < n
            invariant
                k <= n,
                n == rev@.len(),
                path@.len() == k,
                forall|j: int| 0 <= j < k ==> #[trigger] path@[j]@ == rev@[n - 1 - j]@,
            decreases n - k,
        {
            path.push(rev[n - 1 - k].clone());
            k = k + 1;
        }
        proof {
            assert(point_views(path@) =~= point_views(rev@).reverse());
            lemma_solution_path_valid(self);
            let rp = root_path_spec(self.nodes@, sol as int);
            assert forall|k: int| 0 <= k < path@.len() implies #[trigger] path@[k]@ == rp[k] by {
                assert(point_views(path@)[k] == path@[k]@);
            }
            assert forall|k: int|
                0 <= k < path@.len() - 1 implies #[trigger] self.validity_checker.edge_ok(
                path@[k]@,
                path@[k + 1]@,
            ) by {
                assert(self.validity_checker.edge_ok(rp[k], rp[k + 1]));
            }
        }
        Some(path)
    }
}

/// Law: the tree is acyclic and single-rooted. Exactly one node — the one
/// at index 0 — has no parent, and every other node's parent index is
/// strictly smaller than its own index, so parent chains cannot cycle.
pub proof fn lemma_tree_acyclic<VC, SD, ST, NN>(rrt: &RRT<VC, SD, ST, NN>) where
    VC: ValidityChecker,
    SD: SamplingDistribution,
    ST: Steering,
    NN: NearestNeighbors,

    requires
        rrt.wf(),
    ensures
        rrt.nodes@.len() >= 1,
        rrt.nodes@[0].parent is None,
        forall|i: int|
            1 <= i < rrt.nodes@.len() ==> ((#[trigger] rrt.nodes@[i].parent) matches Some(p) && p
                < i),
{
}

/// The parent-chain path to node `i` starts at the root's configuration,
/// ends at node `i`'s configuration, and each consecutive pair is an edge
/// the validity checker admitted when the child was inserted.
pub proof fn lemma_root_path_props<VC, SD, ST, NN>(rrt: &RRT<VC, SD, ST, NN>, i: int) where
    VC: ValidityChecker,
    SD: SamplingDistribution,
    ST: Steering,
    NN: NearestNeighbors,

    requires
        rrt.wf(),
        0 <= i < rrt.nodes@.len(),
    ensures
        root_path_spec(rrt.nodes@, i).len() >= 1,
        root_path_spec(rrt.nodes@, i)[0] == rrt.nodes@[0].point@,
        root_path_spec(rrt.nodes@, i).last() == rrt.nodes@[i].point@,
        forall|k: int|
            0 <= k < root_path_spec(rrt.nodes@, i).len() - 1
                ==> #[trigger] rrt.validity_checker.edge_ok(
                root_path_spec(rrt.nodes@, i)[k],
                root_path_spec(rrt.nodes@, i)[k + 1],
            ),
    decreases i,
{
    let nodes = rrt.nodes@;
    let path = root_path_spec(nodes, i);
    if i == 0 {
        assert(nodes[0].parent is None);
        assert(path =~= seq![nodes[0].point@]);
    } else {
        assert((nodes[i].parent matches Some(p) && p < i));
        let p = nodes[i].parent->Some_0 as int;
        lemma_root_path_props(rrt, p);
        let sub = root_path_spec(nodes, p);
        assert(path == sub + seq![nodes[i].point@]);
        assert(path[0] == sub[0]);
        assert(path.last() == nodes[i].point@);
        assert(rrt.validity_checker.edge_ok(nodes[p].point@, nodes[i].point@));
        assert forall|k: int|
            0 <= k < path.len() - 1 implies #[trigger] rrt.validity_checker.edge_ok(
            path[k],
            path[k + 1],
        ) by {
            if k < sub.len() - 1 {
                assert(path[k] == sub[k]);
                assert(path[k + 1] == sub[k + 1]);
                assert(rrt.validity_checker.edge_ok(sub[k], sub[k + 1]));
            } else {
                assert(k == sub.len() - 1);
                assert(path[k] == sub.last());
                assert(path[k + 1] == nodes[i].point@);
            }
        }
    }
}

/// Law: once solved, the solution path starts at the start configuration,
/// ends within goal tolerance of the goal, and every consecutive pair of
/// its configurations is an edge that passed the validity checker at
/// insertion time. (Until solved, `get_path` returns `None`; that is part
/// of `get_path`'s contract.)
pub proof fn lemma_solution_path_valid<VC, SD, ST, NN>(rrt: &RRT<VC, SD, ST, NN>) where
    VC: ValidityChecker,
    SD: SamplingDistribution,
    ST: Steering,
    NN: NearestNeighbors,

    requires
        rrt.wf(),
        rrt.solution is Some,
    ensures
        root_path_spec(rrt.nodes@, rrt.solution->Some_0 as int).len() >= 1,
        root_path_spec(rrt.nodes@, rrt.solution->Some_0 as int)[0] == rrt.nodes@[0].point@,
        dist2_spec(
            root_path_spec(rrt.nodes@, rrt.solution->Some_0 as int).last(),
            rrt.goal@,
        ) <= rrt.goal_tolerance * rrt.goal_tolerance,
        forall|k: int|
            0 <= k < root_path_spec(rrt.nodes@, rrt.solution->Some_0 as int).len() - 1
                ==> #[trigger] rrt.validity_checker.edge_ok(
                root_path_spec(rrt.nodes@, rrt.solution->Some_0 as int)[k],
                root_path_spec(rrt.nodes@, rrt.solution->Some_0 as int)[k + 1],
            ),
{
    lemma_root_path_props(rrt, rrt.solution->Some_0 as int);
}

/// The coordinates along the parent chain from the root to node `i`'s
/// parent: empty when `i` is the root.
pub open spec fn ancestor_path_spec(nodes: Seq<Node>, i: int) -> Seq<Seq<i64>> {
    if 0 <= i < nodes.len() {
        match nodes[i].parent {
            Some(p) => if 0 <= p < i {
                root_path_spec(nodes, p as int)
            } else {
                Seq::empty()
            },
            None => Seq::empty(),
        }
    } else {
        Seq::empty()
    }
}

} // verus!
