//! Similarity pose-graph optimization for scale-drift correction.
//!
//! A rigid pose graph has no scale degree of freedom and cannot absorb the scale drift
//! of a monocular trajectory. This optimizer works on similarity nodes: a loop closure
//! can redistribute the scale error across the trajectory.
//!
//! The module holds the graph, checks that a problem is posed, lays out the variables,
//! and runs the damped iteration: which steps are accepted, how the damping moves, and
//! when to stop. Costs and steps come from the functions in [`Sim3Numerics`], which the
//! caller supplies.
use crate::geometry::Sim3;
use crate::scalar::Scalar;
use crate::sequences::{
    count_where, lemma_filter_take, lemma_increasing_is_unique, lemma_sorted_set_of,
    lemma_take_all, lists_kept, sorted_set, sorted_set_of, strictly_increasing,
};
use std::collections::BTreeMap;
use vstd::prelude::*;

verus! {

/// An edge: a measured similarity that takes the `from` node to the `to` node. With an
/// information matrix, in row-major order, the scalar weight is ignored.
#[derive(Clone, Debug, PartialEq, Eq)]
pub struct Sim3Edge {
    pub from: u64,
    pub to: u64,
    pub measurement: Sim3,
    pub weight: Scalar,
    pub information: Option<Vec<Scalar>>,
}

/// A node: a keyframe and its estimate.
#[derive(Clone, Copy, Debug, PartialEq, Eq, Structural)]
pub struct PoseNode {
    pub id: u64,
    pub pose: Sim3,
}

/// One iteration of the optimizer.
#[derive(Clone, Copy, Debug, PartialEq, Eq, Structural)]
pub struct Sim3PoseGraphIterationStats {
    pub iteration: usize,
    pub cost_before: Scalar,
    pub cost_after: Scalar,
    pub max_step_norm: Scalar,
    /// The damping used for this iteration; zero without damping.
    pub lambda: Scalar,
    pub step_accepted: bool,
}

/// The result of an optimization.
#[derive(Clone, Debug, PartialEq, Eq)]
pub struct Sim3PoseGraphResult {
    pub anchor_id: u64,
    pub edge_count: usize,
    pub variable_count: usize,
    pub initial_cost: Scalar,
    pub final_cost: Scalar,
    pub iterations: Vec<Sim3PoseGraphIterationStats>,
    pub converged: bool,
}

#[derive(Clone, Copy, Debug, PartialEq, Eq)]
pub struct Sim3PoseGraphConfig {
    pub max_iterations: usize,
    /// Convergence threshold on the largest update of a node.
    pub step_tolerance: Scalar,
    /// Convergence threshold on the cost change of an accepted step.
    pub cost_tolerance: Scalar,
    /// Initial damping. Without it every step is accepted.
    pub initial_lambda: Option<Scalar>,
    pub lambda_increase_factor: Scalar,
    pub lambda_decrease_factor: Scalar,
    pub max_lambda: Scalar,
    pub min_lambda: Scalar,
}

impl Default for Sim3PoseGraphConfig {
    /// Tolerances of 1e-8 and 1e-12, a damping of 1e-3 between 1e-9 and 1e12, and factors
    /// of 10 and 0.1.
    fn default() -> (config: Self)
        ensures
            config == (Sim3PoseGraphConfig {
                max_iterations: 50,
                step_tolerance: Scalar { bits: 0x3E45_798E_E230_8C3A },
                cost_tolerance: Scalar { bits: 0x3D71_9799_812D_EA11 },
                initial_lambda: Some(Scalar { bits: 0x3F50_624D_D2F1_A9FC }),
                lambda_increase_factor: Scalar { bits: 0x4024_0000_0000_0000 },
                lambda_decrease_factor: Scalar { bits: 0x3FB9_9999_9999_999A },
                max_lambda: Scalar { bits: 0x426D_1A94_A200_0000 },
                min_lambda: Scalar { bits: 0x3E11_2E0B_E826_D695 },
            }),
    {
        Sim3PoseGraphConfig {
            max_iterations: 50,
            step_tolerance: Scalar { bits: 0x3E45_798E_E230_8C3A },
            cost_tolerance: Scalar { bits: 0x3D71_9799_812D_EA11 },
            initial_lambda: Some(Scalar { bits: 0x3F50_624D_D2F1_A9FC }),
            lambda_increase_factor: Scalar { bits: 0x4024_0000_0000_0000 },
            lambda_decrease_factor: Scalar { bits: 0x3FB9_9999_9999_999A },
            max_lambda: Scalar { bits: 0x426D_1A94_A200_0000 },
            min_lambda: Scalar { bits: 0x3E11_2E0B_E826_D695 },
        }
    }
}

/// Why a graph could not be optimized. `E` is the error of the linear solver.
#[derive(Clone, Copy, Debug, PartialEq, Eq)]
pub enum PoseGraphError<E> {
    NoAnchor,
    MissingNode(u64),
    NoEdges,
    NoVariables,
    Solver(E),
}

/// The variables that an edge touches; none at the end that is the anchor.
#[derive(Clone, Copy, Debug, PartialEq, Eq)]
pub struct EdgeSlots {
    pub from: Option<usize>,
    pub to: Option<usize>,
}

/// The step of one variable: its updated estimate and the norm of the update.
#[derive(Clone, Copy, Debug, PartialEq, Eq, Structural)]
pub struct NodeStep {
    pub pose: Sim3,
    pub norm: Scalar,
}

/// How a graph is priced.
pub struct GraphCost<T, S> {
    /// The weighted squared residual of an edge, by the poses of its two nodes.
    pub term: T,
    /// The sum of a list of numbers, in order.
    pub total: S,
}

/// The arithmetic that the optimizer rests on.
pub struct Sim3Numerics<T, S, D, U, L, V> {
    /// The cost of the nodes.
    pub cost: GraphCost<T, S>,
    /// The damped step of every variable, in the order of the variables.
    pub step: D,
    /// The damping times the increase factor.
    pub raise: U,
    /// The damping times the decrease factor.
    pub lower: L,
    /// The absolute difference of two costs.
    pub change: V,
}

/// The nodes are sorted by id, each id once.
pub open spec fn sorted_nodes(nodes: Seq<PoseNode>) -> bool {
    forall|i: int, j: int|
        0 <= i < j < nodes.len() ==> (#[trigger] nodes[i]).id < (#[trigger] nodes[j]).id
}

/// Node `k` has this id.
pub open spec fn node_at(nodes: Seq<PoseNode>, k: int, id: u64) -> bool {
    0 <= k < nodes.len() && nodes[k].id == id
}

pub open spec fn has_node(nodes: Seq<PoseNode>, id: u64) -> bool {
    exists|k: int| node_at(nodes, k, id)
}

/// The ids are those of the map, in increasing order.
pub open spec fn lists_ids(ids: Seq<u64>, poses: Map<u64, Sim3>) -> bool {
    strictly_increasing(ids) && forall|id: u64| ids.contains(id) <==> poses.contains_key(id)
}

/// The ids of a map in increasing order.
pub open spec fn node_ids(poses: Map<u64, Sim3>) -> Seq<u64> {
    choose|ids: Seq<u64>| lists_ids(ids, poses)
}

/// The nodes by id.
pub open spec fn nodes_of(poses: Map<u64, Sim3>) -> Seq<PoseNode> {
    node_ids(poses).map_values(|id: u64| PoseNode { id, pose: poses[id] })
}

/// A similarity pose graph.
#[derive(Clone, Debug, PartialEq, Eq)]
pub struct Sim3PoseGraph {
    /// The estimates by keyframe id.
    pub poses: BTreeMap<u64, Sim3>,
    pub edges: Vec<Sim3Edge>,
    /// The keyframe whose node is held fixed.
    pub anchor: Option<u64>,
}

/// The state of a graph, with the nodes sorted by id.
#[verifier::ext_equal]
pub struct Sim3GraphModel {
    pub poses: Seq<PoseNode>,
    pub edges: Seq<Sim3Edge>,
    pub anchor: Option<u64>,
}

impl View for Sim3PoseGraph {
    type V = Sim3GraphModel;

    open spec fn view(&self) -> Sim3GraphModel {
        Sim3GraphModel { poses: nodes_of(self.poses@), edges: self.edges@, anchor: self.anchor }
    }
}

/// Sorted nodes that hold a map are its nodes.
proof fn lemma_nodes_of(nodes: Seq<PoseNode>, poses: Map<u64, Sim3>)
    requires
        sorted_nodes(nodes),
        forall|id: u64| has_node(nodes, id) <==> poses.contains_key(id),
        forall|k: int| 0 <= k < nodes.len() ==> (#[trigger] nodes[k]).pose == poses[nodes[k].id],
    ensures
        nodes == nodes_of(poses),
{
    let ids = nodes.map_values(|node: PoseNode| node.id);
    assert forall|id: u64| ids.contains(id) <==> poses.contains_key(id) by {
        if ids.contains(id) {
            let k = ids.index_of(id);
            assert(node_at(nodes, k, id));
        }
        if has_node(nodes, id) {
            let k = choose|k: int| node_at(nodes, k, id);
            assert(ids[k] == id);
        }
    }
    assert(lists_ids(ids, poses));
    lemma_increasing_is_unique(ids, node_ids(poses));
    assert(nodes =~= nodes_of(poses));
}

/// The view lists exactly the estimates of the graph: sorted by id, each id once, with the
/// pose that the map holds for it. No other sequence of nodes does.
pub proof fn view_lists_the_poses(graph: Sim3PoseGraph, nodes: Seq<PoseNode>)
    ensures
        sorted_nodes(graph@.poses),
        forall|id: u64| has_node(graph@.poses, id) <==> graph.poses@.contains_key(id),
        forall|k: int|
            0 <= k < graph@.poses.len() ==> (#[trigger] graph@.poses[k]).pose
                == graph.poses@[graph@.poses[k].id],
        sorted_nodes(nodes) && (forall|id: u64|
            has_node(nodes, id) <==> graph.poses@.contains_key(id)) && (forall|k: int|
            0 <= k < nodes.len() ==> (#[trigger] nodes[k]).pose == graph.poses@[nodes[k].id])
            ==> nodes == graph@.poses,
{
    broadcast use vstd::std_specs::btree::group_btree_axioms;

    let poses = graph.poses@;
    let keys = poses.dom().to_seq();
    poses.dom().lemma_to_seq_to_set_id();
    lemma_sorted_set_of(keys);
    let sorted = sorted_set_of(keys);
    assert forall|id: u64| sorted.contains(id) <==> poses.contains_key(id) by {
        assert(keys.to_set().contains(id) <==> keys.contains(id));
    }
    assert(lists_ids(sorted, poses));
    let ids = node_ids(poses);
    assert(lists_ids(ids, poses));
    let listed = nodes_of(poses);
    assert forall|id: u64| has_node(listed, id) <==> poses.contains_key(id) by {
        if has_node(listed, id) {
            let k = choose|k: int| node_at(listed, k, id);
            assert(ids[k] == id);
        }
        if ids.contains(id) {
            let k = ids.index_of(id);
            assert(node_at(listed, k, id));
        }
    }
    if sorted_nodes(nodes) && (forall|id: u64| has_node(nodes, id) <==> poses.contains_key(id)) && (
    forall|k: int| 0 <= k < nodes.len() ==> (#[trigger] nodes[k]).pose == poses[nodes[k].id]) {
        lemma_nodes_of(nodes, poses);
    }
}

/// Lists the nodes by id.
fn list_nodes(poses: &BTreeMap<u64, Sim3>) -> (nodes: Vec<PoseNode>)
    ensures
        nodes@ == nodes_of(poses@),
        sorted_nodes(nodes@),
        forall|id: u64| has_node(nodes@, id) <==> poses@.contains_key(id),
{
    broadcast use vstd::std_specs::btree::group_btree_axioms;

    let mut listed: Vec<u64> = Vec::new();
    let ghost all: Seq<u64> = vstd::std_specs::iter::IteratorSpec::remaining(
        &poses.keys(),
    ).unref();
    for id in it: poses.keys()
        invariant
            all == it.seq().unref(),
            all.to_set() == poses@.dom(),
            listed@ == all.take(it.index()),
    {
        listed.push(*id);
        assert(listed@ =~= all.take(it.index() + 1));
    }
    assert(all.take(all.len() as int) =~= all);
    assert forall|id: u64| listed@.contains(id) <==> poses@.contains_key(id) by {
        assert(all.to_set().contains(id) <==> all.contains(id));
    }
    let ids = sorted_set(listed.as_slice());
    let mut nodes: Vec<PoseNode> = Vec::new();
    let mut k: usize = 0;
    while k < ids.len()
        invariant
            k <= ids.len(),
            lists_ids(ids@, poses@),
            nodes.len() == k,
            forall|j: int|
                0 <= j < k ==> #[trigger] nodes@[j] == (PoseNode {
                    id: ids@[j],
                    pose: poses@[ids@[j]],
                }),
        decreases ids.len() - k,
    {
        broadcast use vstd::std_specs::btree::group_btree_axioms;

        assert(ids@.contains(ids@[k as int]));
        if let Some(pose) = poses.get(&ids[k]) {
            nodes.push(PoseNode { id: ids[k], pose: *pose });
        }
        k += 1;
    }
    proof {
        assert forall|id: u64| has_node(nodes@, id) <==> poses@.contains_key(id) by {
            if has_node(nodes@, id) {
                let j = choose|j: int| node_at(nodes@, j, id);
                assert(ids@[j] == id);
            }
            if ids@.contains(id) {
                let j = ids@.index_of(id);
                assert(node_at(nodes@, j, id));
            }
        }
        lemma_nodes_of(nodes@, poses@);
    }
    nodes
}

/// The map that holds some nodes.
fn collect_nodes(nodes: &Vec<PoseNode>) -> (poses: BTreeMap<u64, Sim3>)
    requires
        sorted_nodes(nodes@),
    ensures
        nodes_of(poses@) == nodes@,
        forall|id: u64| has_node(nodes@, id) <==> poses@.contains_key(id),
{
    broadcast use vstd::std_specs::btree::group_btree_axioms;

    let mut poses: BTreeMap<u64, Sim3> = BTreeMap::new();
    let mut k: usize = 0;
    while k < nodes.len()
        invariant
            k <= nodes.len(),
            sorted_nodes(nodes@),
            forall|j: int|
                0 <= j < k ==> poses@.contains_key((#[trigger] nodes@[j]).id)
                    && poses@[nodes@[j].id] == nodes@[j].pose,
            forall|id: u64|
                #[trigger] poses@.contains_key(id) ==> exists|j: int|
                    j < k && node_at(nodes@, j, id),
        decreases nodes.len() - k,
    {
        broadcast use vstd::std_specs::btree::group_btree_axioms;

        let ghost before = poses@;
        poses.insert(nodes[k].id, nodes[k].pose);
        assert forall|j: int| 0 <= j < k + 1 implies poses@.contains_key((#[trigger] nodes@[j]).id)
            && poses@[nodes@[j].id] == nodes@[j].pose by {
            if j < k {
                assert(nodes@[j].id < nodes@[k as int].id);
                assert(before.contains_key(nodes@[j].id));
            }
        }
        assert forall|id: u64| #[trigger] poses@.contains_key(id) implies exists|j: int|
            j < k + 1 && node_at(nodes@, j, id) by {
            if id == nodes@[k as int].id {
                assert(node_at(nodes@, k as int, id));
            } else {
                assert(before.contains_key(id));
                let j = choose|j: int| j < k && node_at(nodes@, j, id);
                assert(node_at(nodes@, j, id));
            }
        }
        k += 1;
    }
    proof {
        assert forall|id: u64| has_node(nodes@, id) <==> poses@.contains_key(id) by {
            if has_node(nodes@, id) {
                let j = choose|j: int| node_at(nodes@, j, id);
                assert(poses@.contains_key(nodes@[j].id));
            }
        }
        lemma_nodes_of(nodes@, poses@);
    }
    poses
}

impl Default for Sim3PoseGraph {
    fn default() -> (graph: Self)
        ensures
            graph.poses@ == Map::<u64, Sim3>::empty(),
            graph.edges@ == Seq::<Sim3Edge>::empty(),
            graph.anchor is None,
    {
        Sim3PoseGraph::new()
    }
}

impl Sim3PoseGraph {
    /// An empty graph.
    pub fn new() -> (graph: Self)
        ensures
            graph.poses@ == Map::<u64, Sim3>::empty(),
            graph.edges@ == Seq::<Sim3Edge>::empty(),
            graph.anchor is None,
    {
        Sim3PoseGraph { poses: BTreeMap::new(), edges: Vec::new(), anchor: None }
    }

    /// The estimate of a keyframe.
    pub fn pose(&self, keyframe_id: u64) -> (pose: Option<Sim3>)
        ensures
            pose == if self.poses@.contains_key(keyframe_id) {
                Some(self.poses@[keyframe_id])
            } else {
                None
            },
    {
        broadcast use vstd::std_specs::btree::group_btree_axioms;

        match self.poses.get(&keyframe_id) {
            Some(pose) => Some(*pose),
            None => None,
        }
    }

    /// The sum of the weighted squared residuals of the edges whose nodes both exist.
    pub fn cost<T, S>(&self, numerics: &GraphCost<T, S>) -> (cost: Scalar) where
        T: Fn(&Sim3Edge, &Sim3, &Sim3) -> Scalar,
        S: Fn(&Vec<Scalar>) -> Scalar,

        requires
            numerics.callable(),
        ensures
            is_cost(*numerics, self@.poses, self@.edges, cost),
    {
        let nodes = list_nodes(&self.poses);
        price(&nodes, &self.edges, numerics)
    }

    /// Inserts or replaces the estimate of a keyframe.
    pub fn add_pose(&mut self, keyframe_id: u64, pose: Sim3)
        ensures
            final(self).poses@ == old(self).poses@.insert(keyframe_id, pose),
            final(self).edges == old(self).edges,
            final(self).anchor == old(self).anchor,
    {
        broadcast use vstd::std_specs::btree::group_btree_axioms;

        self.poses.insert(keyframe_id, pose);
    }

    /// Holds a keyframe fixed.
    pub fn anchor(&mut self, keyframe_id: u64)
        ensures
            final(self).anchor == Some(keyframe_id),
            final(self).poses == old(self).poses,
            final(self).edges == old(self).edges,
    {
        self.anchor = Some(keyframe_id);
    }

    /// Adds an edge with a scalar weight.
    pub fn add_edge(&mut self, from: u64, to: u64, measurement: Sim3, weight: Scalar)
        ensures
            final(self).edges@ == old(self).edges@.push(
                Sim3Edge { from, to, measurement, weight, information: None },
            ),
            final(self).poses == old(self).poses,
            final(self).anchor == old(self).anchor,
    {
        self.edges.push(Sim3Edge { from, to, measurement, weight, information: None });
    }

    /// Adds an edge with an information matrix.
    pub fn add_edge_with_information(
        &mut self,
        from: u64,
        to: u64,
        measurement: Sim3,
        information: Vec<Scalar>,
    )
        ensures
            final(self).edges@ == old(self).edges@.push(
                Sim3Edge {
                    from,
                    to,
                    measurement,
                    weight: Scalar::one(),
                    information: Some(information),
                },
            ),
            final(self).poses == old(self).poses,
            final(self).anchor == old(self).anchor,
    {
        self.edges.push(
            Sim3Edge {
                from,
                to,
                measurement,
                weight: Scalar::one(),
                information: Some(information),
            },
        );
    }
}

/// The smaller of two numbers; the other one where one is not a number.
pub open spec fn lesser(a: Scalar, b: Scalar) -> Scalar {
    if a.is_nan() || b.lt(a) {
        b
    } else {
        a
    }
}

/// The larger of two numbers; the other one where one is not a number.
pub open spec fn greater(a: Scalar, b: Scalar) -> Scalar {
    if a.is_nan() || a.lt(b) {
        b
    } else {
        a
    }
}

fn lesser_of(a: Scalar, b: Scalar) -> (m: Scalar)
    ensures
        m == lesser(a, b),
{
    if a.is_nan() || b.lt(a) {
        b
    } else {
        a
    }
}

fn greater_of(a: Scalar, b: Scalar) -> (m: Scalar)
    ensures
        m == greater(a, b),
{
    if a.is_nan() || a.lt(b) {
        b
    } else {
        a
    }
}

/// The first end of an edge, in edge order, `from` before `to`, that is no node.
pub open spec fn first_missing(edges: Seq<Sim3Edge>, nodes: Seq<PoseNode>) -> Option<u64>
    decreases edges.len(),
{
    if edges.len() == 0 {
        None
    } else {
        match first_missing(edges.drop_last(), nodes) {
            Some(id) => Some(id),
            None => if !has_node(nodes, edges.last().from) {
                Some(edges.last().from)
            } else if !has_node(nodes, edges.last().to) {
                Some(edges.last().to)
            } else {
                None
            },
        }
    }
}

/// Selects the nodes that are not the anchor.
pub open spec fn is_variable(anchor: u64) -> spec_fn(PoseNode) -> bool {
    |node: PoseNode| node.id != anchor
}

/// The variables: every node but the anchor, by id.
pub open spec fn variables(nodes: Seq<PoseNode>, anchor: u64) -> Seq<PoseNode> {
    nodes.filter(is_variable(anchor))
}

/// The position of a variable.
pub open spec fn variable_of(variables: Seq<PoseNode>, id: u64) -> Option<usize>
    decreases variables.len(),
{
    if variables.len() == 0 {
        None
    } else if variables.last().id == id {
        Some((variables.len() - 1) as usize)
    } else {
        variable_of(variables.drop_last(), id)
    }
}

/// The variables that each edge touches.
pub open spec fn slots_of(edges: Seq<Sim3Edge>, variables: Seq<PoseNode>) -> Seq<EdgeSlots> {
    edges.map_values(
        |edge: Sim3Edge|
            EdgeSlots {
                from: variable_of(variables, edge.from),
                to: variable_of(variables, edge.to),
            },
    )
}

/// The problem that keeps a graph from being optimized, the first of: no anchor, an
/// anchor that is no node, no edge, an edge end that is no node, no variable.
pub open spec fn graph_problem<E>(graph: Sim3GraphModel) -> Option<PoseGraphError<E>> {
    match graph.anchor {
        None => Some(PoseGraphError::NoAnchor),
        Some(anchor) => if !has_node(graph.poses, anchor) {
            Some(PoseGraphError::MissingNode(anchor))
        } else if graph.edges.len() == 0 {
            Some(PoseGraphError::NoEdges)
        } else {
            match first_missing(graph.edges, graph.poses) {
                Some(id) => Some(PoseGraphError::MissingNode(id)),
                None => if variables(graph.poses, anchor).len() == 0 {
                    Some(PoseGraphError::NoVariables)
                } else {
                    None
                },
            }
        },
    }
}

/// The nodes after every variable took its step; the anchor stays.
pub open spec fn stepped(nodes: Seq<PoseNode>, anchor: u64, steps: Seq<NodeStep>) -> Seq<PoseNode>
    decreases nodes.len(),
{
    if nodes.len() == 0 {
        Seq::empty()
    } else if nodes.last().id == anchor {
        stepped(nodes.drop_last(), anchor, steps).push(nodes.last())
    } else {
        let k = variables(nodes.drop_last(), anchor).len();
        stepped(nodes.drop_last(), anchor, steps).push(
            PoseNode { id: nodes.last().id, pose: steps[k as int].pose },
        )
    }
}

/// The largest norm of some steps.
pub open spec fn largest_norm(steps: Seq<NodeStep>) -> Scalar
    decreases steps.len(),
{
    if steps.len() == 0 {
        Scalar::zero()
    } else {
        greater(largest_norm(steps.drop_last()), steps.last().norm)
    }
}

/// Where the iteration stands.
#[verifier::ext_equal]
pub struct DampedState {
    pub poses: Seq<PoseNode>,
    pub cost: Scalar,
    pub lambda: Scalar,
    pub stats: Seq<Sim3PoseGraphIterationStats>,
    /// The iteration has stopped.
    pub stopped: bool,
    pub converged: bool,
}

/// What one attempted step gave: the steps, the cost after them, the raised and the
/// lowered damping, and the change of the cost.
pub struct Attempt {
    pub steps: Seq<NodeStep>,
    pub cost_after: Scalar,
    pub raised: Scalar,
    pub lowered: Scalar,
    pub change: Scalar,
}

/// A step is accepted when it lowers the cost, or always without damping.
pub open spec fn accepts(config: Sim3PoseGraphConfig, before: Scalar, after: Scalar) -> bool {
    config.initial_lambda is None || after.lt(before)
}

/// The state after an attempt. A rejected step leaves the nodes, raises the damping, and
/// stops the iteration at the largest damping. An accepted step lowers the damping and
/// converges where the step or the change of the cost is below its tolerance.
pub open spec fn after_attempt(
    state: DampedState,
    anchor: u64,
    config: Sim3PoseGraphConfig,
    attempt: Attempt,
) -> DampedState {
    let norm = largest_norm(attempt.steps);
    let accepted = accepts(config, state.cost, attempt.cost_after);
    let raised = lesser(attempt.raised, config.max_lambda);
    let entry = Sim3PoseGraphIterationStats {
        iteration: state.stats.len() as usize,
        cost_before: state.cost,
        cost_after: attempt.cost_after,
        max_step_norm: norm,
        lambda: state.lambda,
        step_accepted: accepted,
    };
    if !accepted {
        DampedState {
            lambda: raised,
            stats: state.stats.push(entry),
            stopped: config.max_lambda.le(raised),
            ..state
        }
    } else {
        let done = norm.lt(config.step_tolerance) || attempt.change.lt(config.cost_tolerance);
        DampedState {
            poses: stepped(state.poses, anchor, attempt.steps),
            cost: attempt.cost_after,
            lambda: if config.initial_lambda is Some {
                greater(attempt.lowered, config.min_lambda)
            } else {
                state.lambda
            },
            stats: state.stats.push(entry),
            stopped: done,
            converged: done,
        }
    }
}

/// The functions take any argument, and there is one step for each variable.
pub open spec fn sim3_callable<T, S, D, U, L, V, E>(
    numerics: Sim3Numerics<T, S, D, U, L, V>,
    variable_count: nat,
) -> bool where
    T: Fn(&Sim3Edge, &Sim3, &Sim3) -> Scalar,
    S: Fn(&Vec<Scalar>) -> Scalar,
    D: Fn(&Vec<PoseNode>, &Vec<Sim3Edge>, &Vec<EdgeSlots>, Scalar) -> Result<Vec<NodeStep>, E>,
    U: Fn(Scalar) -> Scalar,
    L: Fn(Scalar) -> Scalar,
    V: Fn(Scalar, Scalar) -> Scalar,
{
    &&& numerics.cost.callable()
    &&& forall|poses: Vec<PoseNode>, edges: Vec<Sim3Edge>, slots: Vec<EdgeSlots>, lambda: Scalar|
        call_requires(numerics.step, (&poses, &edges, &slots, lambda))
    &&& forall|
        poses: Vec<PoseNode>,
        edges: Vec<Sim3Edge>,
        slots: Vec<EdgeSlots>,
        lambda: Scalar,
        steps: Vec<NodeStep>,
    | #[trigger]
        call_ensures(
            numerics.step,
            (&poses, &edges, &slots, lambda),
            Ok::<Vec<NodeStep>, E>(steps),
        ) ==> steps.len() == variable_count
    &&& forall|lambda: Scalar| call_requires(numerics.raise, (lambda,))
    &&& forall|lambda: Scalar| call_requires(numerics.lower, (lambda,))
    &&& forall|before: Scalar, after: Scalar| call_requires(numerics.change, (before, after))
}

/// The first position whose id is not smaller.
fn find_slot(nodes: &Vec<PoseNode>, id: u64) -> (p: usize)
    requires
        sorted_nodes(nodes@),
    ensures
        p <= nodes@.len(),
        forall|i: int| 0 <= i < p ==> (#[trigger] nodes@[i]).id < id,
        forall|i: int| p <= i < nodes@.len() ==> (#[trigger] nodes@[i]).id >= id,
        has_node(nodes@, id) <==> node_at(nodes@, p as int, id),
        forall|k: int| node_at(nodes@, k, id) ==> k == p,
{
    let mut lo: usize = 0;
    let mut hi: usize = nodes.len();
    while lo < hi
        invariant
            sorted_nodes(nodes@),
            lo <= hi <= nodes.len(),
            forall|i: int| 0 <= i < lo ==> (#[trigger] nodes[i]).id < id,
            forall|i: int| hi <= i < nodes.len() ==> (#[trigger] nodes[i]).id >= id,
        decreases hi - lo,
    {
        let mid: usize = lo + (hi - lo) / 2;
        if nodes[mid].id < id {
            assert(forall|i: int| 0 <= i < mid ==> (#[trigger] nodes[i]).id < nodes[mid as int].id);
            lo = mid + 1;
        } else {
            assert(forall|i: int| mid < i < nodes.len() ==> nodes[mid as int].id < (#[trigger] nodes[i]).id);
            hi = mid;
        }
    }
    proof {
        assert forall|k: int| node_at(nodes@, k, id) implies k == lo by {
            if k > lo {
                assert(nodes[lo as int].id < nodes[k].id);
            }
        }
    }
    lo
}

impl<T, S> GraphCost<T, S> where
    T: Fn(&Sim3Edge, &Sim3, &Sim3) -> Scalar,
    S: Fn(&Vec<Scalar>) -> Scalar,
{
    /// The functions take any argument.
    pub open spec fn callable(self) -> bool {
        &&& forall|edge: Sim3Edge, from: Sim3, to: Sim3|
            call_requires(self.term, (&edge, &from, &to))
        &&& forall|values: Vec<Scalar>| call_requires(self.total, (&values,))
    }
}

/// The estimate of a keyframe, if it has one.
pub open spec fn pose_of(nodes: Seq<PoseNode>, id: u64) -> Option<Sim3> {
    if has_node(nodes, id) {
        Some(nodes[choose|k: int| node_at(nodes, k, id)].pose)
    } else {
        None
    }
}

/// `term` is what an edge costs; none where one of its nodes is missing.
pub open spec fn is_edge_cost<T, S>(
    f: GraphCost<T, S>,
    nodes: Seq<PoseNode>,
    edge: Sim3Edge,
    term: Option<Scalar>,
) -> bool where
    T: Fn(&Sim3Edge, &Sim3, &Sim3) -> Scalar,
    S: Fn(&Vec<Scalar>) -> Scalar,
{
    match (pose_of(nodes, edge.from), pose_of(nodes, edge.to)) {
        (Some(from), Some(to)) => term matches Some(value) && call_ensures(
            f.term,
            (&edge, &from, &to),
            value,
        ),
        _ => term is None,
    }
}

/// The values that are present, in order.
pub open spec fn present(values: Seq<Option<Scalar>>) -> Seq<Scalar>
    decreases values.len(),
{
    if values.len() == 0 {
        Seq::empty()
    } else {
        match values.last() {
            Some(value) => present(values.drop_last()).push(value),
            None => present(values.drop_last()),
        }
    }
}

/// `cost` is the sum of these terms, one for each edge.
pub open spec fn is_cost_of_terms<T, S>(
    f: GraphCost<T, S>,
    nodes: Seq<PoseNode>,
    edges: Seq<Sim3Edge>,
    terms: Seq<Option<Scalar>>,
    list: Vec<Scalar>,
    cost: Scalar,
) -> bool where
    T: Fn(&Sim3Edge, &Sim3, &Sim3) -> Scalar,
    S: Fn(&Vec<Scalar>) -> Scalar,
{
    &&& terms.len() == edges.len()
    &&& forall|i: int|
        0 <= i < edges.len() ==> is_edge_cost(f, nodes, edges[i], #[trigger] terms[i])
    &&& list@ == present(terms)
    &&& call_ensures(f.total, (&list,), cost)
}

/// `cost` is the cost of the nodes: the sum over the edges whose nodes both exist.
pub open spec fn is_cost<T, S>(
    f: GraphCost<T, S>,
    nodes: Seq<PoseNode>,
    edges: Seq<Sim3Edge>,
    cost: Scalar,
) -> bool where
    T: Fn(&Sim3Edge, &Sim3, &Sim3) -> Scalar,
    S: Fn(&Vec<Scalar>) -> Scalar,
{
    exists|terms: Seq<Option<Scalar>>, list: Vec<Scalar>| #[trigger]
        is_cost_of_terms(f, nodes, edges, terms, list, cost)
}

/// The estimate of a keyframe among sorted nodes.
fn find_pose(nodes: &Vec<PoseNode>, id: u64) -> (pose: Option<Sim3>)
    requires
        sorted_nodes(nodes@),
    ensures
        pose == pose_of(nodes@, id),
{
    let p: usize = find_slot(nodes, id);
    if p < nodes.len() && nodes[p].id == id {
        assert(node_at(nodes@, p as int, id));
        Some(nodes[p].pose)
    } else {
        None
    }
}

fn price<T, S>(nodes: &Vec<PoseNode>, edges: &Vec<Sim3Edge>, f: &GraphCost<T, S>) -> (cost:
    Scalar) where
    T: Fn(&Sim3Edge, &Sim3, &Sim3) -> Scalar,
    S: Fn(&Vec<Scalar>) -> Scalar,

    requires
        sorted_nodes(nodes@),
        f.callable(),
    ensures
        is_cost(*f, nodes@, edges@, cost),
{
    let mut list: Vec<Scalar> = Vec::new();
    let ghost mut terms: Seq<Option<Scalar>> = Seq::empty();
    let mut i: usize = 0;
    while i < edges.len()
        invariant
            i <= edges.len(),
            sorted_nodes(nodes@),
            f.callable(),
            terms.len() == i,
            forall|k: int|
                0 <= k < i ==> is_edge_cost(*f, nodes@, edges[k], #[trigger] terms[k]),
            list@ == present(terms),
        decreases edges.len() - i,
    {
        let ghost mut term: Option<Scalar> = None;
        if let (Some(from), Some(to)) = (
            find_pose(nodes, edges[i].from),
            find_pose(nodes, edges[i].to),
        ) {
            let value = (f.term)(&edges[i], &from, &to);
            list.push(value);
            proof {
                term = Some(value);
            }
        }
        proof {
            assert(is_edge_cost(*f, nodes@, edges[i as int], term));
            assert(terms.push(term).drop_last() =~= terms);
            terms = terms.push(term);
        }
        i += 1;
    }
    let cost = (f.total)(&list);
    assert(is_cost_of_terms(*f, nodes@, edges@, terms, list, cost));
    cost
}

/// `outcome` is what solving for the step at a state gave.
pub open spec fn is_solved<D, E>(
    f: D,
    poses: Seq<PoseNode>,
    edges: Seq<Sim3Edge>,
    slots: Seq<EdgeSlots>,
    lambda: Scalar,
    outcome: Result<Seq<NodeStep>, E>,
) -> bool where
    D: Fn(&Vec<PoseNode>, &Vec<Sim3Edge>, &Vec<EdgeSlots>, Scalar) -> Result<Vec<NodeStep>, E>,
 {
    exists|
        nodes: Vec<PoseNode>,
        list: Vec<Sim3Edge>,
        touched: Vec<EdgeSlots>,
        returned: Result<Vec<NodeStep>, E>,
    |
        {
            &&& nodes@ == poses
            &&& list@ == edges
            &&& touched@ == slots
            &&& #[trigger] call_ensures(f, (&nodes, &list, &touched, lambda), returned)
            &&& match returned {
                Ok(steps) => outcome == Ok::<Seq<NodeStep>, E>(steps@),
                Err(error) => outcome == Err::<Seq<NodeStep>, E>(error),
            }
        }
}

/// The attempt is what the arithmetic makes of a state.
pub open spec fn is_attempt<T, S, D, U, L, V, E>(
    attempt: Attempt,
    state: DampedState,
    anchor: u64,
    edges: Seq<Sim3Edge>,
    slots: Seq<EdgeSlots>,
    config: Sim3PoseGraphConfig,
    numerics: Sim3Numerics<T, S, D, U, L, V>,
) -> bool where
    T: Fn(&Sim3Edge, &Sim3, &Sim3) -> Scalar,
    S: Fn(&Vec<Scalar>) -> Scalar,
    D: Fn(&Vec<PoseNode>, &Vec<Sim3Edge>, &Vec<EdgeSlots>, Scalar) -> Result<Vec<NodeStep>, E>,
    U: Fn(Scalar) -> Scalar,
    L: Fn(Scalar) -> Scalar,
    V: Fn(Scalar, Scalar) -> Scalar,
{
    &&& is_solved::<D, E>(
        numerics.step,
        state.poses,
        edges,
        slots,
        state.lambda,
        Ok(attempt.steps),
    )
    &&& is_cost(
        numerics.cost,
        stepped(state.poses, anchor, attempt.steps),
        edges,
        attempt.cost_after,
    )
    &&& if accepts(config, state.cost, attempt.cost_after) {
        &&& config.initial_lambda is Some ==> call_ensures(
            numerics.lower,
            (state.lambda,),
            attempt.lowered,
        )
        &&& call_ensures(numerics.change, (state.cost, attempt.cost_after), attempt.change)
    } else {
        call_ensures(numerics.raise, (state.lambda,), attempt.raised)
    }
}

/// One iteration leads from `state` to `next`.
pub open spec fn damped_advances<T, S, D, U, L, V, E>(
    state: DampedState,
    next: DampedState,
    anchor: u64,
    edges: Seq<Sim3Edge>,
    slots: Seq<EdgeSlots>,
    config: Sim3PoseGraphConfig,
    numerics: Sim3Numerics<T, S, D, U, L, V>,
) -> bool where
    T: Fn(&Sim3Edge, &Sim3, &Sim3) -> Scalar,
    S: Fn(&Vec<Scalar>) -> Scalar,
    D: Fn(&Vec<PoseNode>, &Vec<Sim3Edge>, &Vec<EdgeSlots>, Scalar) -> Result<Vec<NodeStep>, E>,
    U: Fn(Scalar) -> Scalar,
    L: Fn(Scalar) -> Scalar,
    V: Fn(Scalar, Scalar) -> Scalar,
{
    &&& !state.stopped
    &&& state.stats.len() < config.max_iterations
    &&& exists|attempt: Attempt| #[trigger]
        is_attempt::<T, S, D, U, L, V, E>(
            attempt,
            state,
            anchor,
            edges,
            slots,
            config,
            numerics,
        ) && next == after_attempt(state, anchor, config, attempt)
}

/// A history of states, each the result of one iteration on the one before.
#[verifier::opaque]
pub open spec fn is_damped_history<T, S, D, U, L, V, E>(
    history: Seq<DampedState>,
    graph: Sim3GraphModel,
    anchor: u64,
    initial_cost: Scalar,
    config: Sim3PoseGraphConfig,
    numerics: Sim3Numerics<T, S, D, U, L, V>,
) -> bool where
    T: Fn(&Sim3Edge, &Sim3, &Sim3) -> Scalar,
    S: Fn(&Vec<Scalar>) -> Scalar,
    D: Fn(&Vec<PoseNode>, &Vec<Sim3Edge>, &Vec<EdgeSlots>, Scalar) -> Result<Vec<NodeStep>, E>,
    U: Fn(Scalar) -> Scalar,
    L: Fn(Scalar) -> Scalar,
    V: Fn(Scalar, Scalar) -> Scalar,
{
    let slots = slots_of(graph.edges, variables(graph.poses, anchor));
    &&& history.len() > 0
    &&& history[0] == (DampedState {
        poses: graph.poses,
        cost: initial_cost,
        lambda: match config.initial_lambda {
            Some(lambda) => lambda,
            None => Scalar::zero(),
        },
        stats: Seq::empty(),
        stopped: false,
        converged: false,
    })
    &&& forall|k: int|
        #![trigger history[k]]
        0 <= k < history.len() - 1 ==> damped_advances::<T, S, D, U, L, V, E>(
            history[k],
            history[k + 1],
            anchor,
            graph.edges,
            slots,
            config,
            numerics,
        )
}

/// The run ended at this state with this result: it stopped or used up its iterations,
/// or the solver failed.
pub open spec fn is_damped_end<T, S, D, U, L, V, E>(
    last: DampedState,
    graph: Sim3GraphModel,
    anchor: u64,
    initial_cost: Scalar,
    config: Sim3PoseGraphConfig,
    numerics: Sim3Numerics<T, S, D, U, L, V>,
    result: Result<Sim3PoseGraphResult, PoseGraphError<E>>,
) -> bool where
    T: Fn(&Sim3Edge, &Sim3, &Sim3) -> Scalar,
    S: Fn(&Vec<Scalar>) -> Scalar,
    D: Fn(&Vec<PoseNode>, &Vec<Sim3Edge>, &Vec<EdgeSlots>, Scalar) -> Result<Vec<NodeStep>, E>,
    U: Fn(Scalar) -> Scalar,
    L: Fn(Scalar) -> Scalar,
    V: Fn(Scalar, Scalar) -> Scalar,
{
    let slots = slots_of(graph.edges, variables(graph.poses, anchor));
    match result {
        Ok(report) => {
            &&& last.stopped || last.stats.len() == config.max_iterations
            &&& report.anchor_id == anchor
            &&& report.edge_count == graph.edges.len()
            &&& report.variable_count == variables(graph.poses, anchor).len()
            &&& report.initial_cost == initial_cost
            &&& report.final_cost == last.cost
            &&& report.iterations@ == last.stats
            &&& report.converged == last.converged
        },
        Err(PoseGraphError::Solver(error)) => {
            &&& !last.stopped
            &&& last.stats.len() < config.max_iterations
            &&& is_solved::<D, E>(
                numerics.step,
                last.poses,
                graph.edges,
                slots,
                last.lambda,
                Err(error),
            )
        },
        Err(_) => false,
    }
}

/// `result` and `after` are those of a run on the graph `before`.
pub open spec fn is_optimized<T, S, D, U, L, V, E>(
    before: Sim3GraphModel,
    after: Sim3GraphModel,
    history: Seq<DampedState>,
    initial_cost: Scalar,
    config: Sim3PoseGraphConfig,
    numerics: Sim3Numerics<T, S, D, U, L, V>,
    result: Result<Sim3PoseGraphResult, PoseGraphError<E>>,
) -> bool where
    T: Fn(&Sim3Edge, &Sim3, &Sim3) -> Scalar,
    S: Fn(&Vec<Scalar>) -> Scalar,
    D: Fn(&Vec<PoseNode>, &Vec<Sim3Edge>, &Vec<EdgeSlots>, Scalar) -> Result<Vec<NodeStep>, E>,
    U: Fn(Scalar) -> Scalar,
    L: Fn(Scalar) -> Scalar,
    V: Fn(Scalar, Scalar) -> Scalar,
{
    let anchor = before.anchor->0;
    &&& is_cost(numerics.cost, before.poses, before.edges, initial_cost)
    &&& is_damped_history::<T, S, D, U, L, V, E>(
        history,
        before,
        anchor,
        initial_cost,
        config,
        numerics,
    )
    &&& is_damped_end::<T, S, D, U, L, V, E>(
        history.last(),
        before,
        anchor,
        initial_cost,
        config,
        numerics,
        result,
    )
    &&& after == (Sim3GraphModel { poses: history.last().poses, ..before })
}

fn select_variables(nodes: &Vec<PoseNode>, anchor: u64) -> (selected: Vec<PoseNode>)
    ensures
        selected@ == variables(nodes@, anchor),
{
    let ghost p = is_variable(anchor);
    let mut selected: Vec<PoseNode> = Vec::new();
    let mut i: usize = 0;
    while i < nodes.len()
        invariant
            i <= nodes.len(),
            p == is_variable(anchor),
            selected@ == nodes@.take(i as int).filter(p),
        decreases nodes.len() - i,
    {
        proof {
            lemma_filter_take(nodes@, i as int, p);
        }
        if nodes[i].id != anchor {
            selected.push(nodes[i]);
        }
        i += 1;
    }
    proof {
        lemma_take_all(nodes@);
    }
    selected
}

fn find_variable(variables: &Vec<PoseNode>, id: u64) -> (slot: Option<usize>)
    ensures
        slot == variable_of(variables@, id),
{
    let mut n: usize = variables.len();
    proof {
        lemma_take_all(variables@);
    }
    while n > 0
        invariant
            n <= variables.len(),
            variable_of(variables@, id) == variable_of(variables@.take(n as int), id),
        decreases n,
    {
        assert(variables@.take(n as int).drop_last() =~= variables@.take(n - 1));
        if variables[n - 1].id == id {
            return Some(n - 1);
        }
        n -= 1;
    }
    None
}

fn collect_slots(edges: &Vec<Sim3Edge>, variables: &Vec<PoseNode>) -> (slots: Vec<EdgeSlots>)
    ensures
        slots@ == slots_of(edges@, variables@),
{
    let mut slots: Vec<EdgeSlots> = Vec::new();
    let mut i: usize = 0;
    while i < edges.len()
        invariant
            i <= edges.len(),
            slots.len() == i,
            forall|k: int| 0 <= k < i ==> #[trigger] slots[k] == slots_of(edges@, variables@)[k],
        decreases edges.len() - i,
    {
        slots.push(
            EdgeSlots {
                from: find_variable(variables, edges[i].from),
                to: find_variable(variables, edges[i].to),
            },
        );
        i += 1;
    }
    assert(slots@ =~= slots_of(edges@, variables@));
    slots
}

fn take_steps(nodes: &Vec<PoseNode>, anchor: u64, steps: &Vec<NodeStep>) -> (after: Vec<PoseNode>)
    requires
        steps.len() == variables(nodes@, anchor).len(),
    ensures
        after@ == stepped(nodes@, anchor, steps@),
{
    let ghost p = is_variable(anchor);
    let mut after: Vec<PoseNode> = Vec::new();
    let mut k: usize = 0;
    let mut i: usize = 0;
    while i < nodes.len()
        invariant
            i <= nodes.len(),
            p == is_variable(anchor),
            steps.len() == nodes@.filter(p).len(),
            k == nodes@.take(i as int).filter(p).len(),
            after@ == stepped(nodes@.take(i as int), anchor, steps@),
        decreases nodes.len() - i,
    {
        proof {
            assert(nodes@.take(i + 1).drop_last() =~= nodes@.take(i as int));
            lemma_filter_take(nodes@, i as int, p);
            lemma_filter_prefix(nodes@, i + 1, p);
        }
        if nodes[i].id == anchor {
            after.push(nodes[i]);
        } else {
            after.push(PoseNode { id: nodes[i].id, pose: steps[k].pose });
            k += 1;
        }
        i += 1;
    }
    proof {
        lemma_take_all(nodes@);
    }
    after
}

proof fn lemma_filter_prefix(nodes: Seq<PoseNode>, n: int, p: spec_fn(PoseNode) -> bool)
    requires
        0 <= n <= nodes.len(),
    ensures
        nodes.take(n).filter(p).len() <= nodes.filter(p).len(),
    decreases nodes.len() - n,
{
    if n < nodes.len() {
        lemma_filter_take(nodes, n, p);
        lemma_filter_prefix(nodes, n + 1, p);
    } else {
        lemma_take_all(nodes);
    }
}

fn step_norm(steps: &Vec<NodeStep>) -> (norm: Scalar)
    ensures
        norm == largest_norm(steps@),
{
    let mut norm = Scalar::zero();
    let mut i: usize = 0;
    while i < steps.len()
        invariant
            i <= steps.len(),
            norm == largest_norm(steps@.take(i as int)),
        decreases steps.len() - i,
    {
        assert(steps@.take(i + 1).drop_last() =~= steps@.take(i as int));
        norm = greater_of(norm, steps[i].norm);
        i += 1;
    }
    proof {
        lemma_take_all(steps@);
    }
    norm
}

proof fn lemma_stepped(nodes: Seq<PoseNode>, anchor: u64, steps: Seq<NodeStep>)
    ensures
        stepped(nodes, anchor, steps).len() == nodes.len(),
        forall|k: int|
            0 <= k < nodes.len() ==> (#[trigger] stepped(nodes, anchor, steps)[k]).id == nodes[k].id,
        forall|k: int|
            0 <= k < nodes.len() && nodes[k].id == anchor ==> #[trigger] stepped(
                nodes,
                anchor,
                steps,
            )[k] == nodes[k],
        variables(stepped(nodes, anchor, steps), anchor).len() == variables(nodes, anchor).len(),
    decreases nodes.len(),
{
    reveal(Seq::filter);
    if nodes.len() > 0 {
        lemma_stepped(nodes.drop_last(), anchor, steps);
        let after = stepped(nodes, anchor, steps);
        assert(after.drop_last() =~= stepped(nodes.drop_last(), anchor, steps));
    }
}

proof fn lemma_damped_history_starts<T, S, D, U, L, V, E>(
    first: DampedState,
    graph: Sim3GraphModel,
    anchor: u64,
    initial_cost: Scalar,
    config: Sim3PoseGraphConfig,
    numerics: Sim3Numerics<T, S, D, U, L, V>,
) where
    T: Fn(&Sim3Edge, &Sim3, &Sim3) -> Scalar,
    S: Fn(&Vec<Scalar>) -> Scalar,
    D: Fn(&Vec<PoseNode>, &Vec<Sim3Edge>, &Vec<EdgeSlots>, Scalar) -> Result<Vec<NodeStep>, E>,
    U: Fn(Scalar) -> Scalar,
    L: Fn(Scalar) -> Scalar,
    V: Fn(Scalar, Scalar) -> Scalar,
    requires
        first == (DampedState {
            poses: graph.poses,
            cost: initial_cost,
            lambda: match config.initial_lambda {
                Some(lambda) => lambda,
                None => Scalar::zero(),
            },
            stats: Seq::empty(),
            stopped: false,
            converged: false,
        }),
    ensures
        is_damped_history::<T, S, D, U, L, V, E>(
            seq![first],
            graph,
            anchor,
            initial_cost,
            config,
            numerics,
        ),
{
    reveal(is_damped_history);
}

proof fn lemma_damped_history_grows<T, S, D, U, L, V, E>(
    history: Seq<DampedState>,
    next: DampedState,
    attempt: Attempt,
    graph: Sim3GraphModel,
    anchor: u64,
    initial_cost: Scalar,
    config: Sim3PoseGraphConfig,
    numerics: Sim3Numerics<T, S, D, U, L, V>,
) where
    T: Fn(&Sim3Edge, &Sim3, &Sim3) -> Scalar,
    S: Fn(&Vec<Scalar>) -> Scalar,
    D: Fn(&Vec<PoseNode>, &Vec<Sim3Edge>, &Vec<EdgeSlots>, Scalar) -> Result<Vec<NodeStep>, E>,
    U: Fn(Scalar) -> Scalar,
    L: Fn(Scalar) -> Scalar,
    V: Fn(Scalar, Scalar) -> Scalar,
    requires
        is_damped_history::<T, S, D, U, L, V, E>(
            history,
            graph,
            anchor,
            initial_cost,
            config,
            numerics,
        ),
        !history.last().stopped,
        history.last().stats.len() < config.max_iterations,
        is_attempt::<T, S, D, U, L, V, E>(
            attempt,
            history.last(),
            anchor,
            graph.edges,
            slots_of(graph.edges, variables(graph.poses, anchor)),
            config,
            numerics,
        ),
        next == after_attempt(history.last(), anchor, config, attempt),
    ensures
        is_damped_history::<T, S, D, U, L, V, E>(
            history.push(next),
            graph,
            anchor,
            initial_cost,
            config,
            numerics,
        ),
{
    reveal(is_damped_history);
    let longer = history.push(next);
    let slots = slots_of(graph.edges, variables(graph.poses, anchor));
    assert forall|k: int| #![trigger longer[k]] 0 <= k < longer.len() - 1 implies damped_advances::<
        T,
        S,
        D,
        U,
        L,
        V,
        E,
    >(longer[k], longer[k + 1], anchor, graph.edges, slots, config, numerics) by {
        if k < history.len() - 1 {
            assert(longer[k] == history[k]);
        }
    }
}

impl Sim3PoseGraph {
    /// The problem that keeps the graph from being optimized.
    fn find_problem<E>(&self, nodes: &Vec<PoseNode>) -> (problem: Option<PoseGraphError<E>>)
        requires
            nodes@ == self@.poses,
            sorted_nodes(nodes@),
        ensures
            problem == graph_problem::<E>(self@),
    {
        let anchor: u64 = match self.anchor {
            Some(id) => id,
            None => {
                return Some(PoseGraphError::NoAnchor);
            },
        };
        if find_pose(nodes, anchor).is_none() {
            return Some(PoseGraphError::MissingNode(anchor));
        }
        if self.edges.len() == 0 {
            return Some(PoseGraphError::NoEdges);
        }
        let mut i: usize = 0;
        while i < self.edges.len()
            invariant
                nodes@ == self@.poses,
                sorted_nodes(nodes@),
                self.anchor == Some(anchor),
                has_node(nodes@, anchor),
                self.edges.len() > 0,
                i <= self.edges.len(),
                first_missing(self.edges@.take(i as int), nodes@) is None,
            decreases self.edges.len() - i,
        {
            assert(self.edges@.take(i + 1).drop_last() =~= self.edges@.take(i as int));
            let from: u64 = self.edges[i].from;
            let to: u64 = self.edges[i].to;
            if find_pose(nodes, from).is_none() {
                proof {
                    lemma_first_missing_stays(self.edges@, nodes@, i + 1);
                }
                return Some(PoseGraphError::MissingNode(from));
            }
            if find_pose(nodes, to).is_none() {
                proof {
                    lemma_first_missing_stays(self.edges@, nodes@, i + 1);
                }
                return Some(PoseGraphError::MissingNode(to));
            }
            i += 1;
        }
        proof {
            lemma_take_all(self.edges@);
        }
        if select_variables(nodes, anchor).len() == 0 {
            return Some(PoseGraphError::NoVariables);
        }
        None
    }

    /// Optimizes all nodes but the anchor.
    ///
    /// A graph that poses no problem is iterated on: a step is solved for and attempted;
    /// with damping it is kept only where it lowers the cost. The iteration ends when a
    /// step or its effect is small enough, when the damping has reached its maximum, or
    /// after the configured number of iterations.
    pub fn optimize<T, S, D, U, L, V, E>(
        &mut self,
        config: &Sim3PoseGraphConfig,
        numerics: &Sim3Numerics<T, S, D, U, L, V>,
    ) -> (result: Result<Sim3PoseGraphResult, PoseGraphError<E>>) where
    T: Fn(&Sim3Edge, &Sim3, &Sim3) -> Scalar,
    S: Fn(&Vec<Scalar>) -> Scalar,
    D: Fn(&Vec<PoseNode>, &Vec<Sim3Edge>, &Vec<EdgeSlots>, Scalar) -> Result<Vec<NodeStep>, E>,
    U: Fn(Scalar) -> Scalar,
    L: Fn(Scalar) -> Scalar,
    V: Fn(Scalar, Scalar) -> Scalar,
        requires
            old(self)@.anchor matches Some(anchor) ==> sim3_callable::<T, S, D, U, L, V, E>(
                *numerics,
                variables(old(self)@.poses, anchor).len(),
            ),
        ensures
            match graph_problem::<E>(old(self)@) {
                Some(problem) => final(self)@ == old(self)@ && result == Err::<
                    Sim3PoseGraphResult,
                    _,
                >(problem),
                None => exists|history: Seq<DampedState>, initial_cost: Scalar| #[trigger]
                    is_optimized(
                        old(self)@,
                        final(self)@,
                        history,
                        initial_cost,
                        *config,
                        *numerics,
                        result,
                    ),
            },
    {
        let mut nodes = list_nodes(&self.poses);
        if let Some(problem) = self.find_problem::<E>(&nodes) {
            return Err(problem);
        }
        let anchor_id: u64 = match self.anchor {
            Some(id) => id,
            None => {
                return Err(PoseGraphError::NoAnchor);
            },
        };
        let ghost first = self@;
        let listed = select_variables(&nodes, anchor_id);
        let slots = collect_slots(&self.edges, &listed);
        let variable_count: usize = listed.len();
        let initial_cost = price(&nodes, &self.edges, &numerics.cost);
        assert(is_cost(numerics.cost, first.poses, first.edges, initial_cost));
        let mut current_cost = initial_cost;
        let mut lambda = match config.initial_lambda {
            Some(value) => value,
            None => Scalar::zero(),
        };
        let mut iterations: Vec<Sim3PoseGraphIterationStats> = Vec::new();
        let mut converged: bool = false;
        let mut stopped: bool = false;
        let ghost mut history = seq![
            DampedState {
                poses: first.poses,
                cost: initial_cost,
                lambda,
                stats: Seq::empty(),
                stopped: false,
                converged: false,
            },
        ];
        proof {
            assert(iterations@ =~= Seq::empty());
            lemma_damped_history_starts::<T, S, D, U, L, V, E>(
                history[0],
                first,
                anchor_id,
                initial_cost,
                *config,
                *numerics,
            );
        }
        while !stopped && iterations.len() < config.max_iterations
            invariant
                first == old(self)@,
                sorted_nodes(first.poses),
                graph_problem::<E>(first) is None,
                is_cost(numerics.cost, first.poses, first.edges, initial_cost),
                sim3_callable::<T, S, D, U, L, V, E>(*numerics, variable_count as nat),
                variable_count == variables(first.poses, anchor_id).len(),
                slots@ == slots_of(first.edges, variables(first.poses, anchor_id)),
                self.edges@ == first.edges,
                self.anchor == first.anchor,
                first.anchor == Some(anchor_id),
                sorted_nodes(nodes@),
                variables(nodes@, anchor_id).len() == variable_count,
                is_damped_history::<T, S, D, U, L, V, E>(
                    history,
                    first,
                    anchor_id,
                    initial_cost,
                    *config,
                    *numerics,
                ),
                history.last() == (DampedState {
                    poses: nodes@,
                    cost: current_cost,
                    lambda,
                    stats: iterations@,
                    stopped,
                    converged,
                }),
                iterations.len() <= config.max_iterations,
            decreases config.max_iterations - iterations.len(),
        {
            let ghost state = history.last();
            let solved = (numerics.step)(&nodes, &self.edges, &slots, lambda);
            let steps: Vec<NodeStep> = match solved {
                Ok(list) => list,
                Err(error) => {
                    let result: Result<Sim3PoseGraphResult, PoseGraphError<E>> = Err(
                        PoseGraphError::Solver(error),
                    );
                    assert(is_solved::<D, E>(
                        numerics.step,
                        state.poses,
                        first.edges,
                        slots@,
                        state.lambda,
                        Err(error),
                    ));
                    self.poses = collect_nodes(&nodes);
                    assert(is_optimized(
                        first,
                        self@,
                        history,
                        initial_cost,
                        *config,
                        *numerics,
                        result,
                    ));
                    return result;
                },
            };
            assert(is_solved::<D, E>(
                numerics.step,
                state.poses,
                first.edges,
                slots@,
                state.lambda,
                Ok(steps@),
            ));
            let max_step_norm = step_norm(&steps);
            let moved = take_steps(&nodes, anchor_id, &steps);
            proof {
                lemma_stepped(nodes@, anchor_id, steps@);
                lemma_same_ids(nodes@, moved@);
            }
            let cost_before = current_cost;
            let cost_after = price(&moved, &self.edges, &numerics.cost);
            assert(is_cost(numerics.cost, moved@, first.edges, cost_after));
            let accepted: bool = config.initial_lambda.is_none() || cost_after.lt(cost_before);
            let iteration: usize = iterations.len();
            let ghost mut attempt = Attempt {
                steps: steps@,
                cost_after,
                raised: lambda,
                lowered: lambda,
                change: lambda,
            };
            if !accepted {
                let raised = (numerics.raise)(lambda);
                proof {
                    attempt = Attempt { raised, ..attempt };
                }
                iterations.push(
                    Sim3PoseGraphIterationStats {
                        iteration,
                        cost_before,
                        cost_after,
                        max_step_norm,
                        lambda,
                        step_accepted: false,
                    },
                );
                lambda = lesser_of(raised, config.max_lambda);
                stopped = config.max_lambda.le(lambda);
            } else {
                iterations.push(
                    Sim3PoseGraphIterationStats {
                        iteration,
                        cost_before,
                        cost_after,
                        max_step_norm,
                        lambda,
                        step_accepted: true,
                    },
                );
                current_cost = cost_after;
                if config.initial_lambda.is_some() {
                    let lowered = (numerics.lower)(lambda);
                    proof {
                        attempt = Attempt { lowered, ..attempt };
                    }
                    lambda = greater_of(lowered, config.min_lambda);
                }
                let change = (numerics.change)(cost_before, cost_after);
                proof {
                    attempt = Attempt { change, ..attempt };
                }
                converged = max_step_norm.lt(config.step_tolerance) || change.lt(
                    config.cost_tolerance,
                );
                stopped = converged;
                nodes = moved;
            }
            proof {
                let next = after_attempt(state, anchor_id, *config, attempt);
                assert(is_attempt::<T, S, D, U, L, V, E>(
                    attempt,
                    state,
                    anchor_id,
                    first.edges,
                    slots@,
                    *config,
                    *numerics,
                ));
                lemma_damped_history_grows::<T, S, D, U, L, V, E>(
                    history,
                    next,
                    attempt,
                    first,
                    anchor_id,
                    initial_cost,
                    *config,
                    *numerics,
                );
                history = history.push(next);
                assert(history.last() =~= (DampedState {
                    poses: nodes@,
                    cost: current_cost,
                    lambda,
                    stats: iterations@,
                    stopped,
                    converged,
                }));
            }
        }
        let result: Result<Sim3PoseGraphResult, PoseGraphError<E>> = Ok(
            Sim3PoseGraphResult {
                anchor_id,
                edge_count: self.edges.len(),
                variable_count,
                initial_cost,
                final_cost: current_cost,
                iterations,
                converged,
            },
        );
        self.poses = collect_nodes(&nodes);
        assert(is_optimized(
            first,
            self@,
            history,
            initial_cost,
            *config,
            *numerics,
            result,
        ));
        result
    }
}

/// Nodes whose ids did not change are still sorted.
proof fn lemma_same_ids(before: Seq<PoseNode>, after: Seq<PoseNode>)
    requires
        sorted_nodes(before),
        after.len() == before.len(),
        forall|k: int| 0 <= k < before.len() ==> (#[trigger] after[k]).id == before[k].id,
    ensures
        sorted_nodes(after),
{
}

proof fn lemma_first_missing_stays(edges: Seq<Sim3Edge>, nodes: Seq<PoseNode>, n: int)
    requires
        0 <= n <= edges.len(),
        first_missing(edges.take(n), nodes) is Some,
    ensures
        first_missing(edges, nodes) == first_missing(edges.take(n), nodes),
    decreases edges.len() - n,
{
    if n < edges.len() {
        assert(edges.take(n + 1).drop_last() =~= edges.take(n));
        lemma_first_missing_stays(edges, nodes, n + 1);
    } else {
        assert(edges.take(n) =~= edges);
    }
}

/// What every state of a run satisfies: the nodes keep their ids, the anchor keeps its
/// estimate, and there is one entry per iteration, no more than configured. With damping
/// the cost never grows.
pub proof fn optimization_keeps_gauge_and_cost<T, S, D, U, L, V, E>(
    history: Seq<DampedState>,
    k: int,
    graph: Sim3GraphModel,
    anchor: u64,
    initial_cost: Scalar,
    config: Sim3PoseGraphConfig,
    numerics: Sim3Numerics<T, S, D, U, L, V>,
) where
    T: Fn(&Sim3Edge, &Sim3, &Sim3) -> Scalar,
    S: Fn(&Vec<Scalar>) -> Scalar,
    D: Fn(&Vec<PoseNode>, &Vec<Sim3Edge>, &Vec<EdgeSlots>, Scalar) -> Result<Vec<NodeStep>, E>,
    U: Fn(Scalar) -> Scalar,
    L: Fn(Scalar) -> Scalar,
    V: Fn(Scalar, Scalar) -> Scalar,
    requires
        is_damped_history::<T, S, D, U, L, V, E>(
            history,
            graph,
            anchor,
            initial_cost,
            config,
            numerics,
        ),
        0 <= k < history.len(),
    ensures
        history[k].poses.len() == graph.poses.len(),
        forall|i: int|
            0 <= i < graph.poses.len() ==> (#[trigger] history[k].poses[i]).id
                == graph.poses[i].id,
        forall|i: int|
            0 <= i < graph.poses.len() && graph.poses[i].id == anchor ==> #[trigger]
                history[k].poses[i] == graph.poses[i],
        history[k].stats.len() == k <= config.max_iterations,
        config.initial_lambda is Some ==> history[k].cost == initial_cost || history[k].cost.lt(
            initial_cost,
        ),
    decreases k,
{
    reveal(is_damped_history);
    if k > 0 {
        optimization_keeps_gauge_and_cost::<T, S, D, U, L, V, E>(
            history,
            k - 1,
            graph,
            anchor,
            initial_cost,
            config,
            numerics,
        );
        let slots = slots_of(graph.edges, variables(graph.poses, anchor));
        let state = history[k - 1];
        assert(damped_advances::<T, S, D, U, L, V, E>(
            state,
            history[k],
            anchor,
            graph.edges,
            slots,
            config,
            numerics,
        ));
        let attempt = choose|attempt: Attempt| #[trigger]
            is_attempt::<T, S, D, U, L, V, E>(
                attempt,
                state,
                anchor,
                graph.edges,
                slots,
                config,
                numerics,
            ) && history[k] == after_attempt(state, anchor, config, attempt);
        lemma_stepped(state.poses, anchor, attempt.steps);
        assert forall|i: int|
            0 <= i < graph.poses.len() && graph.poses[i].id == anchor implies #[trigger]
        history[k].poses[i] == graph.poses[i] by {
            assert(state.poses[i] == graph.poses[i]);
        }
        assert forall|i: int| 0 <= i < graph.poses.len() implies (
        #[trigger] history[k].poses[i]).id == graph.poses[i].id by {
            assert(state.poses[i].id == graph.poses[i].id);
        }
    }
}

/// What a graph is refused for: no anchor, an anchor that is no node, no edge, an edge with
/// an end that is no node, and no node beside the anchor. A graph without these is sound.
pub proof fn sound_graphs_are_optimized<E>(graph: Sim3GraphModel)
    ensures
        ({
            let problem = graph_problem::<E>(graph);
            let anchored = exists|k: int|
                0 <= k < graph.poses.len() && graph.anchor == Some((#[trigger] graph.poses[k]).id);
            let joined = forall|e: int|
                0 <= e < graph.edges.len() ==> has_node(
                    graph.poses,
                    (#[trigger] graph.edges[e]).from,
                ) && has_node(graph.poses, graph.edges[e].to);
            let free = exists|k: int|
                0 <= k < graph.poses.len() && graph.anchor != Some((#[trigger] graph.poses[k]).id);
            &&& problem is None <==> anchored && graph.edges.len() > 0 && joined && free
            &&& graph.anchor is None ==> problem == Some(PoseGraphError::<E>::NoAnchor)
            &&& graph.anchor is Some && !anchored ==> problem == Some(
                PoseGraphError::<E>::MissingNode(graph.anchor->0),
            )
            &&& anchored && graph.edges.len() == 0 ==> problem == Some(
                PoseGraphError::<E>::NoEdges,
            )
            &&& anchored && graph.edges.len() > 0 && !joined ==> (problem matches Some(
                PoseGraphError::MissingNode(id),
            ) && !has_node(graph.poses, id) && exists|e: int|
                0 <= e < graph.edges.len() && ((#[trigger] graph.edges[e]).from == id
                    || graph.edges[e].to == id))
            &&& anchored && graph.edges.len() > 0 && joined && !free ==> problem == Some(
                PoseGraphError::<E>::NoVariables,
            )
        }),
{
    if let Some(anchor) = graph.anchor {
        let nodes = graph.poses;
        if has_node(nodes, anchor) {
            let k = choose|k: int| node_at(nodes, k, anchor);
            assert(nodes[k].id == anchor);
        }
        if exists|k: int| 0 <= k < nodes.len() && graph.anchor == Some((#[trigger] nodes[k]).id) {
            let k = choose|k: int|
                0 <= k < nodes.len() && graph.anchor == Some((#[trigger] nodes[k]).id);
            assert(node_at(nodes, k, anchor));
        }
        lemma_first_missing(graph.edges, nodes);
        let at = crate::sequences::lemma_filter_positions(nodes, is_variable(anchor));
        if variables(nodes, anchor).len() > 0 {
            assert(is_variable(anchor)(nodes[at[0]]));
        }
        if exists|k: int| 0 <= k < nodes.len() && graph.anchor != Some((#[trigger] nodes[k]).id) {
            let k = choose|k: int|
                0 <= k < nodes.len() && graph.anchor != Some((#[trigger] nodes[k]).id);
            assert(is_variable(anchor)(nodes[k]));
            assert(at.contains(k));
        }
    }
}

proof fn lemma_first_missing(edges: Seq<Sim3Edge>, nodes: Seq<PoseNode>)
    ensures
        first_missing(edges, nodes) is None <==> forall|e: int|
            0 <= e < edges.len() ==> has_node(nodes, (#[trigger] edges[e]).from) && has_node(
                nodes,
                edges[e].to,
            ),
        first_missing(edges, nodes) matches Some(id) ==> !has_node(nodes, id) && exists|e: int|
            0 <= e < edges.len() && ((#[trigger] edges[e]).from == id || edges[e].to == id),
    decreases edges.len(),
{
    if edges.len() > 0 {
        let rest = edges.drop_last();
        lemma_first_missing(rest, nodes);
        let n = rest.len() as int;
        assert forall|e: int| 0 <= e < n implies #[trigger] edges[e] == rest[e] by {}
        if first_missing(rest, nodes) is Some {
            let id = first_missing(rest, nodes)->0;
            let e = choose|e: int|
                0 <= e < rest.len() && ((#[trigger] rest[e]).from == id || rest[e].to == id);
            assert(edges[e].from == id || edges[e].to == id);
            assert(!(has_node(nodes, edges[e].from) && has_node(nodes, edges[e].to)));
        } else {
            assert forall|e: int| 0 <= e < n implies has_node(nodes, (#[trigger] edges[e]).from)
                && has_node(nodes, edges[e].to) by {
                assert(has_node(nodes, rest[e].from) && has_node(nodes, rest[e].to));
            }
            assert(edges[n] == edges.last());
        }
    }
}

/// The lesser and the greater of two numbers bound both of them, and each is one of the two;
/// what is not a number gives way to what is.
pub proof fn lesser_and_greater_bound_both(a: Scalar, b: Scalar)
    ensures
        lesser(a, b) == a || lesser(a, b) == b,
        greater(a, b) == a || greater(a, b) == b,
        !a.is_nan() && !b.is_nan() ==> lesser(a, b).le(a) && lesser(a, b).le(b) && a.le(
            greater(a, b),
        ) && b.le(greater(a, b)),
        a.is_nan() ==> lesser(a, b) == b && greater(a, b) == b,
        b.is_nan() && !a.is_nan() ==> lesser(a, b) == a && greater(a, b) == a,
{
}

/// The largest step is as long as any step, and is one of them or nothing.
pub proof fn the_largest_step_is_the_longest(steps: Seq<NodeStep>, k: int)
    ensures
        !largest_norm(steps).is_nan(),
        0 <= k < steps.len() && !steps[k].norm.is_nan() ==> steps[k].norm.le(largest_norm(steps)),
        largest_norm(steps) == Scalar::zero() || exists|j: int|
            0 <= j < steps.len() && (#[trigger] steps[j]).norm == largest_norm(steps),
    decreases steps.len(),
{
    if steps.len() > 0 {
        let rest = steps.drop_last();
        the_largest_step_is_the_longest(rest, k);
        if 0 <= k < rest.len() {
            assert(rest[k] == steps[k]);
        }
        if largest_norm(rest) != Scalar::zero() {
            let j = choose|j: int|
                0 <= j < rest.len() && (#[trigger] rest[j]).norm == largest_norm(rest);
            assert(steps[j].norm == largest_norm(rest));
        }
        assert(steps[steps.len() - 1] == steps.last());
    }
}

/// A step moves every node but the anchor, each by its own entry: entries come in the order
/// of the nodes without the anchor. All ids stay.
pub proof fn steps_move_all_but_the_anchor(
    nodes: Seq<PoseNode>,
    anchor: u64,
    steps: Seq<NodeStep>,
    i: int,
)
    requires
        0 <= i < nodes.len(),
    ensures
        stepped(nodes, anchor, steps).len() == nodes.len(),
        stepped(nodes, anchor, steps)[i].id == nodes[i].id,
        nodes[i].id == anchor ==> stepped(nodes, anchor, steps)[i] == nodes[i],
        nodes[i].id != anchor ==> stepped(nodes, anchor, steps)[i].pose == steps[count_where(
            i as nat,
            |j: int| nodes[j].id != anchor,
        ) as int].pose,
    decreases nodes.len(),
{
    let rest = nodes.drop_last();
    let n = rest.len();
    lemma_stepped_len(nodes, anchor, steps);
    lemma_stepped_len(rest, anchor, steps);
    if i < n {
        steps_move_all_but_the_anchor(rest, anchor, steps, i);
        assert(rest[i] == nodes[i]);
        crate::sequences::lemma_count_same(
            i as nat,
            |j: int| rest[j].id != anchor,
            |j: int| nodes[j].id != anchor,
        );
    } else {
        crate::sequences::lemma_filter_count(rest, is_variable(anchor));
        crate::sequences::lemma_count_same(
            n,
            |j: int| is_variable(anchor)(rest[j]),
            |j: int| nodes[j].id != anchor,
        );
    }
}

proof fn lemma_stepped_len(nodes: Seq<PoseNode>, anchor: u64, steps: Seq<NodeStep>)
    ensures
        stepped(nodes, anchor, steps).len() == nodes.len(),
    decreases nodes.len(),
{
    if nodes.len() > 0 {
        lemma_stepped_len(nodes.drop_last(), anchor, steps);
    }
}

/// What one iteration does. With damping a step is only taken where it lowers the cost, and
/// without damping always. A step that is taken moves the nodes and sets the cost; it ends
/// the run, converged, where it is shorter than the one tolerance or changes the cost by
/// less than the other; and damping is lowered, to its least at most. A step that is not
/// taken leaves nodes and cost as they are; damping is raised, to its most, where the run
/// ends unconverged.
pub proof fn iterations_lower_the_cost<T, S, D, U, L, V, E>(
    state: DampedState,
    next: DampedState,
    anchor: u64,
    edges: Seq<Sim3Edge>,
    slots: Seq<EdgeSlots>,
    config: Sim3PoseGraphConfig,
    numerics: Sim3Numerics<T, S, D, U, L, V>,
) -> (attempt: Attempt) where
    T: Fn(&Sim3Edge, &Sim3, &Sim3) -> Scalar,
    S: Fn(&Vec<Scalar>) -> Scalar,
    D: Fn(&Vec<PoseNode>, &Vec<Sim3Edge>, &Vec<EdgeSlots>, Scalar) -> Result<Vec<NodeStep>, E>,
    U: Fn(Scalar) -> Scalar,
    L: Fn(Scalar) -> Scalar,
    V: Fn(Scalar, Scalar) -> Scalar,

    requires
        damped_advances::<T, S, D, U, L, V, E>(
            state,
            next,
            anchor,
            edges,
            slots,
            config,
            numerics,
        ),
        config.max_iterations <= usize::MAX,
    ensures
        ({
            let damped = config.initial_lambda is Some;
            let taken = next.stats.last().step_accepted;
            let norm = largest_norm(attempt.steps);
            &&& !state.stopped
            &&& state.stats.len() < config.max_iterations
            &&& next.stats.len() == state.stats.len() + 1
            &&& next.stats.drop_last() == state.stats
            &&& next.stats.last().iteration == state.stats.len()
            &&& next.stats.last().cost_before == state.cost
            &&& next.stats.last().cost_after == attempt.cost_after
            &&& next.stats.last().max_step_norm == norm
            &&& next.stats.last().lambda == state.lambda
            &&& is_cost(
                numerics.cost,
                stepped(state.poses, anchor, attempt.steps),
                edges,
                attempt.cost_after,
            )
            &&& taken <==> !damped || attempt.cost_after.lt(state.cost)
            &&& taken ==> {
                &&& next.poses == stepped(state.poses, anchor, attempt.steps)
                &&& next.cost == attempt.cost_after
                &&& next.converged <==> norm.lt(config.step_tolerance) || attempt.change.lt(
                    config.cost_tolerance,
                )
                &&& next.stopped == next.converged
                &&& call_ensures(
                    numerics.change,
                    (state.cost, attempt.cost_after),
                    attempt.change,
                )
                &&& damped ==> call_ensures(numerics.lower, (state.lambda,), attempt.lowered)
                    && next.lambda == greater(attempt.lowered, config.min_lambda)
                &&& !damped ==> next.lambda == state.lambda
            }
            &&& !taken ==> {
                &&& next.poses == state.poses
                &&& next.cost == state.cost
                &&& next.converged == state.converged
                &&& call_ensures(numerics.raise, (state.lambda,), attempt.raised)
                &&& next.lambda == lesser(attempt.raised, config.max_lambda)
                &&& next.stopped <==> config.max_lambda.le(next.lambda)
            }
        }),
{
    let attempt = choose|attempt: Attempt| #[trigger]
        is_attempt::<T, S, D, U, L, V, E>(
            attempt,
            state,
            anchor,
            edges,
            slots,
            config,
            numerics,
        ) && next == after_attempt(state, anchor, config, attempt);
    assert(next.stats.drop_last() =~= state.stats);
    attempt
}

/// A report tells how the run ended: stopped, or with all its iterations. It names the
/// anchor, counts the edges and the other nodes, and gives the first and the last cost. The
/// graph keeps its edges and its anchor and takes the last estimates. A run that fails does
/// so in the solver.
pub proof fn reports_tell_how_the_run_ended<T, S, D, U, L, V, E>(
    before: Sim3GraphModel,
    after: Sim3GraphModel,
    history: Seq<DampedState>,
    initial_cost: Scalar,
    config: Sim3PoseGraphConfig,
    numerics: Sim3Numerics<T, S, D, U, L, V>,
    result: Result<Sim3PoseGraphResult, PoseGraphError<E>>,
) where
    T: Fn(&Sim3Edge, &Sim3, &Sim3) -> Scalar,
    S: Fn(&Vec<Scalar>) -> Scalar,
    D: Fn(&Vec<PoseNode>, &Vec<Sim3Edge>, &Vec<EdgeSlots>, Scalar) -> Result<Vec<NodeStep>, E>,
    U: Fn(Scalar) -> Scalar,
    L: Fn(Scalar) -> Scalar,
    V: Fn(Scalar, Scalar) -> Scalar,

    requires
        is_optimized::<T, S, D, U, L, V, E>(
            before,
            after,
            history,
            initial_cost,
            config,
            numerics,
            result,
        ),
        before.anchor is Some,
    ensures
        is_cost(numerics.cost, before.poses, before.edges, initial_cost),
        after.edges == before.edges,
        after.anchor == before.anchor,
        after.poses == history.last().poses,
        (result matches Ok(report) ==> {
            &&& report.anchor_id == before.anchor->0
            &&& report.edge_count == before.edges.len()
            &&& report.variable_count == count_where(
                before.poses.len(),
                |k: int| before.poses[k].id != before.anchor->0,
            )
            &&& report.initial_cost == initial_cost
            &&& report.final_cost == history.last().cost
            &&& report.converged == history.last().converged
            &&& report.iterations@ == history.last().stats
            &&& history.last().stopped || report.iterations@.len() == config.max_iterations
        }),
        (result matches Err(error) ==> error is Solver && !history.last().stopped
            && history.last().stats.len() < config.max_iterations),
{
    let anchor = before.anchor->0;
    crate::sequences::lemma_filter_count(before.poses, is_variable(anchor));
    crate::sequences::lemma_count_same(
        before.poses.len(),
        |k: int| is_variable(anchor)(before.poses[k]),
        |k: int| before.poses[k].id != before.anchor->0,
    );
}

/// A node's place among the variables has its id; a node that is not among them has none.
pub proof fn variables_are_found_by_id(variables: Seq<PoseNode>, id: u64)
    requires
        variables.len() <= usize::MAX,
    ensures
        variable_of(variables, id) matches Some(k) ==> k < variables.len() && variables[k as int].id
            == id,
        variable_of(variables, id) is None ==> forall|k: int|
            0 <= k < variables.len() ==> (#[trigger] variables[k]).id != id,
    decreases variables.len(),
{
    if variables.len() > 0 {
        let rest = variables.drop_last();
        variables_are_found_by_id(rest, id);
        if variables.last().id != id && variable_of(rest, id) is None {
            assert forall|k: int| 0 <= k < variables.len() implies (#[trigger] variables[k]).id
                != id by {
                if k < rest.len() {
                    assert(rest[k].id != id);
                }
            }
        }
    }
}

/// The cost is the total over the edges both of whose ends are estimated, in order, each
/// priced with the estimates of its two ends.
pub proof fn costs_total_the_edges<T, S>(
    f: GraphCost<T, S>,
    nodes: Seq<PoseNode>,
    edges: Seq<Sim3Edge>,
    cost: Scalar,
) -> (found: (Seq<int>, Vec<Scalar>)) where
    T: Fn(&Sim3Edge, &Sim3, &Sim3) -> Scalar,
    S: Fn(&Vec<Scalar>) -> Scalar,

    requires
        is_cost(f, nodes, edges, cost),
        sorted_nodes(nodes),
    ensures
        call_ensures(f.total, (&found.1,), cost),
        found.0.len() == found.1@.len(),
        lists_kept(
            found.0,
            edges.len(),
            |e: int| has_node(nodes, edges[e].from) && has_node(nodes, edges[e].to),
        ),
        forall|k: int, from: int, to: int|
            0 <= k < found.0.len() && node_at(nodes, from, edges[found.0[k]].from) && node_at(
                nodes,
                to,
                edges[found.0[k]].to,
            ) ==> #[trigger] call_ensures(
                f.term,
                (&edges[found.0[k]], &nodes[from].pose, &nodes[to].pose),
                found.1@[k],
            ),
{
    let (terms, list) = choose|terms: Seq<Option<Scalar>>, list: Vec<Scalar>| #[trigger]
        is_cost_of_terms(f, nodes, edges, terms, list, cost);
    let at = lemma_present(terms);
    let kept = |e: int| has_node(nodes, edges[e].from) && has_node(nodes, edges[e].to);
    let there = |k: int| terms[k] is Some;
    assert forall|e: int| 0 <= e < edges.len() implies #[trigger] kept(e) == there(e) by {
        assert(is_edge_cost(f, nodes, edges[e], terms[e]));
    }
    assert(lists_kept(at, edges.len(), kept)) by {
        assert forall|i: int| 0 <= i < edges.len() && #[trigger] kept(i) implies at.contains(i) by {
            assert(there(i));
        }
        assert forall|k: int| 0 <= k < at.len() implies 0 <= #[trigger] at[k] < edges.len()
            && kept(at[k]) by {
            assert(there(at[k]));
        }
    }
    assert forall|k: int, from: int, to: int|
        0 <= k < at.len() && node_at(nodes, from, edges[at[k]].from) && node_at(
            nodes,
            to,
            edges[at[k]].to,
        ) implies #[trigger] call_ensures(
        f.term,
        (&edges[at[k]], &nodes[from].pose, &nodes[to].pose),
        list@[k],
    ) by {
        let edge = edges[at[k]];
        assert(is_edge_cost(f, nodes, edge, terms[at[k]]));
        lemma_pose_of(nodes, from, edge.from);
        lemma_pose_of(nodes, to, edge.to);
        assert(terms[at[k]] == Some(list@[k]));
    }
    (at, list)
}

proof fn lemma_pose_of(nodes: Seq<PoseNode>, k: int, id: u64)
    requires
        sorted_nodes(nodes),
        node_at(nodes, k, id),
    ensures
        pose_of(nodes, id) == Some(nodes[k].pose),
{
    let j = choose|j: int| node_at(nodes, j, id);
    if j < k {
        assert(nodes[j].id < nodes[k].id);
    } else if k < j {
        assert(nodes[k].id < nodes[j].id);
    }
}

proof fn lemma_present(values: Seq<Option<Scalar>>) -> (at: Seq<int>)
    ensures
        lists_kept(at, values.len(), |k: int| values[k] is Some),
        present(values).len() == at.len(),
        forall|k: int| 0 <= k < at.len() ==> values[#[trigger] at[k]] == Some(present(values)[k]),
    decreases values.len(),
{
    let kept = |k: int| values[k] is Some;
    if values.len() == 0 {
        Seq::empty()
    } else {
        let rest = values.drop_last();
        let n = rest.len() as int;
        let before = lemma_present(rest);
        let kept_before = |k: int| rest[k] is Some;
        assert forall|k: int| 0 <= k < n implies #[trigger] kept(k) == kept_before(k) by {}
        assert(lists_kept(before, rest.len(), kept));
        crate::sequences::lemma_lists_one_more(before, rest.len(), kept);
        assert forall|k: int| 0 <= k < before.len() implies rest[#[trigger] before[k]]
            == values[before[k]] by {}
        if values[n] is Some {
            assert(kept(n));
            let at = before.push(n);
            assert(at.last() == n);
            at
        } else {
            before
        }
    }
}

/// Where two numbers are equal the first is taken, both as the lesser and as the greater.
pub proof fn ties_keep_the_first(a: Scalar, b: Scalar)
    requires
        a.le(b),
        b.le(a),
    ensures
        lesser(a, b) == a,
        greater(a, b) == a,
{
}

} // verus!
