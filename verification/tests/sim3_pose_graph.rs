use nalgebra::{UnitQuaternion, Vector3};
use visloc_slam::geometry::{Point3, Quaternion, Sim3};
use visloc_slam::scalar::Scalar;
use visloc_slam::sim3_pose_graph::{
    EdgeSlots, GraphCost, NodeStep, PoseGraphError, PoseNode, Sim3Edge, Sim3Numerics,
    Sim3PoseGraph, Sim3PoseGraphConfig, Sim3PoseGraphResult,
};

fn scalar(value: f64) -> Scalar {
    Scalar::from_bits(value.to_bits())
}

fn float(value: Scalar) -> f64 {
    f64::from_bits(value.to_bits())
}

fn point(value: &nalgebra::Vector3<f64>) -> Point3 {
    Point3 { x: scalar(value.x), y: scalar(value.y), z: scalar(value.z) }
}

fn vector(value: &Point3) -> nalgebra::Vector3<f64> {
    nalgebra::Vector3::new(float(value.x), float(value.y), float(value.z))
}

fn quaternion(value: &nalgebra::UnitQuaternion<f64>) -> Quaternion {
    Quaternion {
        w: scalar(value.w),
        x: scalar(value.i),
        y: scalar(value.j),
        z: scalar(value.k),
    }
}

fn rotation(value: &Quaternion) -> nalgebra::UnitQuaternion<f64> {
    nalgebra::UnitQuaternion::new_unchecked(nalgebra::Quaternion::new(
        float(value.w),
        float(value.x),
        float(value.y),
        float(value.z),
    ))
}

#[derive(Clone, Copy)]
struct Similarity {
    rotation: nalgebra::UnitQuaternion<f64>,
    translation: nalgebra::Vector3<f64>,
    scale: f64,
}

impl Similarity {
    fn apply(&self, point: &nalgebra::Vector3<f64>) -> nalgebra::Vector3<f64> {
        self.scale * self.rotation.transform_vector(point) + self.translation
    }
}

fn sim3(value: &Similarity) -> Sim3 {
    Sim3 {
        rotation: quaternion(&value.rotation),
        translation: point(&value.translation),
        scale: scalar(value.scale),
    }
}

fn similarity(value: &Sim3) -> Similarity {
    Similarity {
        rotation: rotation(&value.rotation),
        translation: vector(&value.translation),
        scale: float(value.scale),
    }
}

type Tangent = nalgebra::SVector<f64, 7>;

impl Similarity {
    fn identity() -> Similarity {
        Similarity {
            rotation: nalgebra::UnitQuaternion::identity(),
            translation: nalgebra::Vector3::zeros(),
            scale: 1.0,
        }
    }

    /// First `other`, then `self`.
    fn compose(&self, other: &Similarity) -> Similarity {
        Similarity {
            rotation: self.rotation * other.rotation,
            translation: self.apply(&other.translation),
            scale: self.scale * other.scale,
        }
    }

    fn inverse(&self) -> Similarity {
        let rotation = self.rotation.inverse();
        Similarity {
            rotation,
            translation: rotation * (-self.translation) / self.scale,
            scale: 1.0 / self.scale,
        }
    }

    /// The similarity of a tangent of translation, rotation and log-scale.
    fn exp(tangent: &Tangent) -> Similarity {
        let shift = tangent.fixed_rows::<3>(0).into_owned();
        let turn = tangent.fixed_rows::<3>(3).into_owned();
        Similarity {
            rotation: nalgebra::UnitQuaternion::from_scaled_axis(turn),
            translation: mean_motion(&turn, tangent[6]) * shift,
            scale: tangent[6].exp(),
        }
    }

    fn log(&self) -> Tangent {
        let turn = self.rotation.scaled_axis();
        let growth = self.scale.ln();
        let shift = mean_motion(&turn, growth)
            .try_inverse()
            .map_or(self.translation, |inverse| inverse * self.translation);
        let mut tangent = Tangent::zeros();
        tangent.fixed_rows_mut::<3>(0).copy_from(&shift);
        tangent.fixed_rows_mut::<3>(3).copy_from(&turn);
        tangent[6] = growth;
        tangent
    }
}

/// The average of the scaled rotation along a unit of motion, by its power series.
fn mean_motion(turn: &nalgebra::Vector3<f64>, growth: f64) -> nalgebra::Matrix3<f64> {
    let generator = turn.cross_matrix() + nalgebra::Matrix3::identity() * growth;
    let mut term = nalgebra::Matrix3::identity();
    let mut sum = term;
    for k in 1..40 {
        term = term * generator / (k + 1) as f64;
        sum += term;
    }
    sum
}

fn sum_of(values: &Vec<Scalar>) -> Scalar {
    scalar(values.iter().map(|value| float(*value)).sum::<f64>())
}

/// The normal equations of a step have no solution.
#[derive(Debug, Clone, Copy, PartialEq, Eq)]
struct SingularSystem;

fn edge_residual(measurement: &Similarity, from: &Similarity, to: &Similarity) -> Tangent {
    let predicted = to.compose(&from.inverse());
    measurement.inverse().compose(&predicted).log()
}

fn edge_weight(edge: &Sim3Edge) -> nalgebra::SMatrix<f64, 7, 7> {
    match &edge.information {
        Some(entries) => nalgebra::SMatrix::from_row_iterator(entries.iter().map(|e| float(*e))),
        None => nalgebra::SMatrix::identity() * float(edge.weight),
    }
}

fn edge_cost(edge: &Sim3Edge, from: &Sim3, to: &Sim3) -> Scalar {
    let residual =
        edge_residual(&similarity(&edge.measurement), &similarity(from), &similarity(to));
    scalar(match &edge.information {
        Some(_) => (residual.transpose() * edge_weight(edge) * residual)[(0, 0)],
        None => float(edge.weight) * residual.norm_squared(),
    })
}

/// The derivative of a residual by the pose of one of its nodes, by central differences.
fn edge_jacobian(
    measurement: &Similarity,
    from: &Similarity,
    to: &Similarity,
    by_from: bool,
) -> nalgebra::SMatrix<f64, 7, 7> {
    let step = 1e-6;
    let mut jacobian = nalgebra::SMatrix::<f64, 7, 7>::zeros();
    for k in 0..7 {
        let mut tangent = Tangent::zeros();
        tangent[k] = step;
        let ahead = Similarity::exp(&tangent);
        tangent[k] = -step;
        let back = Similarity::exp(&tangent);
        let (plus, minus) = if by_from {
            (
                edge_residual(measurement, &from.compose(&ahead), to),
                edge_residual(measurement, &from.compose(&back), to),
            )
        } else {
            (
                edge_residual(measurement, from, &to.compose(&ahead)),
                edge_residual(measurement, from, &to.compose(&back)),
            )
        };
        jacobian.set_column(k, &((plus - minus) / (2.0 * step)));
    }
    jacobian
}

/// The damped Gauss-Newton step of every node but the anchor.
fn pose_graph_step(
    poses: &Vec<PoseNode>,
    edges: &Vec<Sim3Edge>,
    slots: &Vec<EdgeSlots>,
    anchor: u64,
    lambda: Scalar,
) -> Result<Vec<NodeStep>, SingularSystem> {
    let variables: Vec<&PoseNode> = poses.iter().filter(|node| node.id != anchor).collect();
    let find = |id: u64| {
        poses
            .iter()
            .find(|node| node.id == id)
            .map(|node| similarity(&node.pose))
            .ok_or(SingularSystem)
    };
    let dim = variables.len() * 7;
    let mut hessian = nalgebra::DMatrix::<f64>::zeros(dim, dim);
    let mut gradient = nalgebra::DVector::<f64>::zeros(dim);
    for (edge, slot) in edges.iter().zip(slots) {
        let measurement = similarity(&edge.measurement);
        let (from, to) = (find(edge.from)?, find(edge.to)?);
        let residual = edge_residual(&measurement, &from, &to);
        let weight = edge_weight(edge);
        let ends = [(slot.from, true), (slot.to, false)];
        let touched: Vec<(usize, nalgebra::SMatrix<f64, 7, 7>)> = ends
            .into_iter()
            .filter_map(|(index, by_from)| {
                index.map(|i| (i, edge_jacobian(&measurement, &from, &to, by_from)))
            })
            .collect();
        for (i, one) in &touched {
            let weighted = one.transpose() * weight;
            let mut part = gradient.fixed_rows_mut::<7>(i * 7);
            part += weighted * residual;
            for (j, other) in &touched {
                let mut block = hessian.fixed_view_mut::<7, 7>(i * 7, j * 7);
                block += weighted * other;
            }
        }
    }
    for k in 0..dim {
        hessian[(k, k)] += float(lambda);
    }
    let delta = match hessian.clone().cholesky() {
        Some(factor) => factor.solve(&(-&gradient)),
        None => hessian.lu().solve(&(-&gradient)).ok_or(SingularSystem)?,
    };
    Ok(variables
        .iter()
        .enumerate()
        .map(|(k, node)| {
            let tangent: Tangent = delta.fixed_rows::<7>(k * 7).into_owned();
            NodeStep {
                pose: sim3(&similarity(&node.pose).compose(&Similarity::exp(&tangent))),
                norm: scalar(tangent.norm()),
            }
        })
        .collect())
}

fn similar(
    rotation: UnitQuaternion<f64>,
    translation: Vector3<f64>,
    scale: f64,
) -> Similarity {
    Similarity { rotation, translation, scale }
}

fn node(graph: &Sim3PoseGraph, id: u64) -> Similarity {
    similarity(&graph.pose(id).unwrap())
}

fn cost_of(graph: &Sim3PoseGraph) -> f64 {
    float(graph.cost(&GraphCost { term: edge_cost, total: sum_of }))
}

fn optimize_with(
    graph: &mut Sim3PoseGraph,
    anchor: u64,
    config: &Sim3PoseGraphConfig,
) -> Result<Sim3PoseGraphResult, PoseGraphError<SingularSystem>> {
    let numerics = Sim3Numerics {
        cost: GraphCost { term: edge_cost, total: sum_of },
        step: |poses: &Vec<PoseNode>,
               edges: &Vec<Sim3Edge>,
               slots: &Vec<EdgeSlots>,
               lambda: Scalar| pose_graph_step(poses, edges, slots, anchor, lambda),
        raise: |lambda: Scalar| times(lambda, config.lambda_increase_factor),
        lower: |lambda: Scalar| times(lambda, config.lambda_decrease_factor),
        change: |before: Scalar, after: Scalar| scalar((float(before) - float(after)).abs()),
    };
    graph.optimize(config, &numerics)
}

/// Optimizes with node 0 as the anchor.
fn optimize(
    graph: &mut Sim3PoseGraph,
) -> Result<Sim3PoseGraphResult, PoseGraphError<SingularSystem>> {
    optimize_with(graph, 0, &Sim3PoseGraphConfig::default())
}

fn times(a: Scalar, b: Scalar) -> Scalar {
    scalar(float(a) * float(b))
}

/// A ground-truth circular loop at unit (metric) scale.
fn ground_truth(node_count: u64) -> Vec<(u64, Similarity)> {
    (0..node_count)
        .map(|i| {
            let angle = i as f64 / node_count as f64 * std::f64::consts::TAU;
            let pose = similar(
                UnitQuaternion::from_euler_angles(0.0, 0.0, angle),
                Vector3::new(5.0 * angle.cos(), 5.0 * angle.sin(), 0.3 * i as f64),
                1.0,
            );
            (i, pose)
        })
        .collect()
}

/// Build a graph from ground-truth nodes: sequential edges + one loop
/// closure, every measurement the *true* relative similarity.
fn graph_with_true_measurements(truth: &[(u64, Similarity)]) -> Sim3PoseGraph {
    let mut graph = Sim3PoseGraph::new();
    for (id, pose) in truth {
        graph.add_pose(*id, sim3(pose));
    }
    let relative = |from: usize, to: usize| truth[to].1.compose(&truth[from].1.inverse());
    for w in 1..truth.len() {
        graph.add_edge(truth[w - 1].0, truth[w].0, sim3(&relative(w - 1, w)), scalar(1.0));
    }
    let last = truth.len() - 1;
    graph.add_edge(truth[last].0, truth[0].0, sim3(&relative(last, 0)), scalar(10.0));
    graph
}

#[test]
fn ground_truth_is_a_fixed_point() {
    let truth = ground_truth(8);
    let mut graph = graph_with_true_measurements(&truth);
    graph.anchor(0);
    let result = optimize(&mut graph).unwrap();
    assert!(
        float(result.initial_cost) < 1e-18,
        "init cost {}",
        float(result.initial_cost)
    );
    for (id, pose) in &truth {
        assert!((node(&graph, *id).scale - pose.scale).abs() < 1e-9);
        assert!((node(&graph, *id).translation - pose.translation).norm() < 1e-9);
    }
}

#[test]
fn corrects_accumulated_scale_drift() {
    let truth = ground_truth(8);
    let mut graph = graph_with_true_measurements(&truth);
    graph.anchor(0);

    // Drift the initial estimates: a cumulative scale error plus a small
    // rotation/translation wobble that grows along the trajectory. The
    // anchor (node 0) stays at ground truth.
    for (id, pose) in &truth {
        if *id == 0 {
            continue;
        }
        let i = *id as f64;
        let mut drift = Tangent::zeros();
        drift[0] = 0.05 * i; // ρx
        drift[5] = 0.02 * i; // ωz
        drift[6] = 0.06 * i; // σ (log-scale): node 7 ≈ e^0.42 ≈ 1.52x off
        graph.add_pose(*id, sim3(&pose.compose(&Similarity::exp(&drift))));
    }

    let drifted_cost = cost_of(&graph);
    let worst_scale_error = truth
        .iter()
        .map(|(id, _)| (node(&graph, *id).scale - 1.0).abs())
        .fold(0.0_f64, f64::max);
    assert!(
        worst_scale_error > 0.4,
        "expected large initial scale drift"
    );

    let result = optimize(&mut graph).unwrap();

    assert!(
        float(result.final_cost) < drifted_cost * 1e-6,
        "final cost {}",
        float(result.final_cost)
    );
    assert!(
        result.converged,
        "expected convergence: {:?}",
        result.iterations.len()
    );
    // Every node's scale and pose return to ground truth (the unique
    // minimum given exact measurements and a fixed anchor).
    for (id, pose) in &truth {
        assert!(
            (node(&graph, *id).scale - pose.scale).abs() < 1e-6,
            "node {id} scale {} != 1",
            node(&graph, *id).scale
        );
        assert!(
            (node(&graph, *id).translation - pose.translation).norm() < 1e-5,
            "node {id} translation off by {}",
            (node(&graph, *id).translation - pose.translation).norm()
        );
    }
}

#[test]
fn errors_on_degenerate_graphs() {
    let mut empty = Sim3PoseGraph::new();
    empty.add_pose(0, sim3(&Similarity::identity()));
    assert_eq!(
        optimize(&mut empty),
        Err(PoseGraphError::NoAnchor)
    );
    empty.anchor(0);
    assert_eq!(
        optimize(&mut empty),
        Err(PoseGraphError::NoEdges)
    );

    let mut only_anchor = Sim3PoseGraph::new();
    only_anchor.add_pose(0, sim3(&Similarity::identity()));
    only_anchor.anchor(0);
    only_anchor.add_edge(0, 0, sim3(&Similarity::identity()), scalar(1.0));
    assert_eq!(
        optimize(&mut only_anchor),
        Err(PoseGraphError::NoVariables)
    );

    let mut missing = Sim3PoseGraph::new();
    missing.add_pose(0, sim3(&Similarity::identity()));
    missing.anchor(0);
    missing.add_edge(0, 9, sim3(&Similarity::identity()), scalar(1.0));
    assert_eq!(
        optimize(&mut missing),
        Err(PoseGraphError::MissingNode(9))
    );
}

#[test]
fn optimization_keeps_the_anchor_and_never_raises_the_cost() {
    let truth = ground_truth(5);
    let mut graph = graph_with_true_measurements(&truth);
    graph.anchor(2);
    let mut drift = Tangent::zeros();
    drift[1] = 0.4;
    drift[6] = 0.3;
    for (id, pose) in &truth {
        graph.add_pose(*id, sim3(&pose.compose(&Similarity::exp(&(drift * *id as f64)))));
    }
    let held = graph.pose(2).unwrap();
    let before = cost_of(&graph);
    let config = Sim3PoseGraphConfig { max_iterations: 3, ..Sim3PoseGraphConfig::default() };
    let result = optimize_with(&mut graph, 2, &config).unwrap();
    assert_eq!(graph.pose(2), Some(held));
    assert_eq!(result.anchor_id, 2);
    assert_eq!(result.variable_count, 4);
    assert_eq!(result.edge_count, 5);
    assert!(result.iterations.len() <= 3);
    assert!(cost_of(&graph) <= before);
    for stats in &result.iterations {
        assert_eq!(stats.step_accepted, stats.cost_after.lt(stats.cost_before));
    }
}

#[test]
fn missing_nodes_do_not_enter_the_cost() {
    let mut graph = Sim3PoseGraph::new();
    let mut shifted = Similarity::identity();
    shifted.translation.x = 2.0;
    graph.add_pose(3, sim3(&shifted));
    graph.add_pose(1, sim3(&Similarity::identity()));
    graph.add_edge(1, 3, sim3(&Similarity::identity()), scalar(3.0));
    graph.add_edge(1, 8, sim3(&Similarity::identity()), scalar(5.0));
    // One residual of length two, weighted three times.
    assert!((cost_of(&graph) - 12.0).abs() < 1e-12);
    let mut information = vec![scalar(0.0); 49];
    information[0] = scalar(0.5);
    graph.add_edge_with_information(1, 3, sim3(&Similarity::identity()), information);
    assert!((cost_of(&graph) - 14.0).abs() < 1e-12);
    let ids: Vec<u64> = graph.poses.keys().copied().collect();
    assert_eq!(ids, vec![1, 3]);
    assert_eq!(graph.edges.len(), 3);
    assert_eq!(graph.pose(8), None);
}

#[test]
fn solver_failures_are_reported() {
    let mut graph = Sim3PoseGraph::new();
    for id in 0..3 {
        graph.add_pose(id, sim3(&Similarity::identity()));
    }
    // Node 2 has no edge and, undamped, no step.
    graph.add_edge(0, 1, sim3(&Similarity::identity()), scalar(1.0));
    graph.anchor(0);
    let config = Sim3PoseGraphConfig { initial_lambda: None, ..Sim3PoseGraphConfig::default() };
    assert_eq!(
        optimize_with(&mut graph, 0, &config),
        Err(PoseGraphError::Solver(SingularSystem))
    );
}

#[test]
fn iterations_report_the_damping_that_they_used() {
    let mut graph = Sim3PoseGraph::new();
    graph.add_pose(0, sim3(&Similarity::identity()));
    graph.add_pose(1, sim3(&Similarity::identity()));
    graph.add_edge(0, 1, sim3(&Similarity::identity()), scalar(1.0));
    graph.anchor(0);
    let config = Sim3PoseGraphConfig::default();
    // Every step makes things worse, so that all are rejected.
    let numerics = Sim3Numerics {
        cost: GraphCost { term: edge_cost, total: sum_of },
        step: |_: &Vec<PoseNode>,
               _: &Vec<Sim3Edge>,
               _: &Vec<EdgeSlots>,
               _: Scalar|
         -> Result<Vec<NodeStep>, SingularSystem> {
            let mut away = Similarity::identity();
            away.translation.x = 5.0;
            Ok(vec![NodeStep { pose: sim3(&away), norm: scalar(5.0) }])
        },
        raise: |lambda: Scalar| times(lambda, config.lambda_increase_factor),
        lower: |lambda: Scalar| times(lambda, config.lambda_decrease_factor),
        change: |before: Scalar, after: Scalar| scalar((float(before) - float(after)).abs()),
    };
    let result = graph.optimize(&config, &numerics).unwrap();
    let first = config.initial_lambda.unwrap();
    assert!(!result.iterations[0].step_accepted);
    assert_eq!(result.iterations[0].lambda, first);
    assert_eq!(result.iterations[1].lambda, times(first, config.lambda_increase_factor));
    assert_eq!(graph.pose(1), Some(sim3(&Similarity::identity())));
}
