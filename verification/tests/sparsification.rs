use nalgebra::{DMatrix, DVector};
use visloc_slam::dense_matrix::DenseMatrix;
use visloc_slam::scalar::Scalar;
use visloc_slam::spanning_tree::{chow_liu_tree, DisjointSet, WeightedEdge};
use visloc_slam::sparsification::{
    block_count, kl_divergence, sparsify_chow_liu, sparsify_diagonal, DivergenceNumerics,
    Moments, PriorNumerics, SparsifiedPrior,
};

fn scalar(value: f64) -> Scalar {
    Scalar::from_bits(value.to_bits())
}

fn float(value: Scalar) -> f64 {
    f64::from_bits(value.to_bits())
}

fn dense(matrix: &nalgebra::DMatrix<f64>) -> DenseMatrix {
    let mut entries = Vec::new();
    for row in 0..matrix.nrows() {
        for column in 0..matrix.ncols() {
            entries.push(scalar(matrix[(row, column)]));
        }
    }
    DenseMatrix { rows: matrix.nrows(), columns: matrix.ncols(), entries }
}

fn matrix(value: &DenseMatrix) -> nalgebra::DMatrix<f64> {
    nalgebra::DMatrix::from_row_iterator(
        value.rows,
        value.columns,
        value.entries.iter().map(|entry| float(*entry)),
    )
}

fn numbers(value: &nalgebra::DVector<f64>) -> Vec<Scalar> {
    value.iter().map(|entry| scalar(*entry)).collect()
}

fn column(value: &Vec<Scalar>) -> nalgebra::DVector<f64> {
    nalgebra::DVector::from_iterator(value.len(), value.iter().map(|entry| float(*entry)))
}

fn logdet_spd(m: &nalgebra::DMatrix<f64>) -> Option<f64> {
    let l = m.clone().cholesky()?.l();
    Some(2.0 * (0..l.nrows()).map(|i| l[(i, i)].ln()).sum::<f64>())
}

fn moments_of(lambda: &DenseMatrix, eta: &Vec<Scalar>) -> Option<Moments> {
    let factor = matrix(lambda).cholesky()?;
    Some(Moments {
        sigma: dense(&factor.inverse()),
        mu: numbers(&factor.solve(&column(eta))),
    })
}

fn mutual_information(one: Scalar, other: Scalar, joint: Scalar) -> Scalar {
    let value = 0.5 * (float(one) + float(other) - float(joint));
    assert!(!value.is_nan(), "mutual information is not a number");
    scalar(value)
}

fn inverse_spd(value: &DenseMatrix) -> Option<DenseMatrix> {
    Some(dense(&matrix(value).cholesky()?.inverse()))
}

fn accumulate(sum: Scalar, value: Scalar, factor: i128) -> Scalar {
    scalar(float(sum) + factor as f64 * float(value))
}

fn mean_of_two(one: Scalar, other: Scalar) -> Scalar {
    scalar(0.5 * (float(one) + float(other)))
}

fn apply(value: &DenseMatrix, to: &Vec<Scalar>) -> Vec<Scalar> {
    numbers(&(matrix(value) * column(to)))
}

fn trace_product(p: &DenseMatrix, q: &DenseMatrix) -> Option<Scalar> {
    let sigma = matrix(p).cholesky()?.inverse();
    Some(scalar((matrix(q) * sigma).trace()))
}

fn logdet(value: &DenseMatrix) -> Option<Scalar> {
    logdet_spd(&matrix(value)).map(scalar)
}

fn divergence_of(trace: Scalar, n: usize, p: Scalar, q: Scalar) -> Scalar {
    scalar(0.5 * (float(trace) - n as f64 + float(p) - float(q)))
}

fn sub_block(m: &nalgebra::DMatrix<f64>, i: usize, j: usize, b: usize) -> nalgebra::DMatrix<f64> {
    m.view((i * b, j * b), (b, b)).into_owned()
}

/// The joint covariance of two blocks.
fn joint_block(
    sigma: &nalgebra::DMatrix<f64>,
    i: usize,
    j: usize,
    b: usize,
) -> nalgebra::DMatrix<f64> {
    let mut joint = nalgebra::DMatrix::zeros(2 * b, 2 * b);
    for (row, from) in [i, j].into_iter().enumerate() {
        for (col, to) in [i, j].into_iter().enumerate() {
            joint
                .view_mut((row * b, col * b), (b, b))
                .copy_from(&sigma.view((from * b, to * b), (b, b)));
        }
    }
    joint
}

fn add_block(
    sum: &mut nalgebra::DMatrix<f64>,
    i: usize,
    j: usize,
    block: &nalgebra::DMatrix<f64>,
    factor: f64,
) {
    let b = block.nrows();
    for row in 0..b {
        for col in 0..block.ncols() {
            sum[(i * b + row, j * b + col)] += factor * block[(row, col)];
        }
    }
}

struct Prior {
    lambda: DMatrix<f64>,
    eta: DVector<f64>,
    edges: Vec<(usize, usize)>,
}

fn read_prior(found: Option<SparsifiedPrior>) -> Option<Prior> {
    found.map(|prior| Prior {
        lambda: matrix(&prior.lambda),
        eta: column(&prior.eta),
        edges: prior.edges,
    })
}

fn chow_liu(lambda: &DMatrix<f64>, eta: &DVector<f64>, block_dim: usize) -> Option<Prior> {
    let numerics = PriorNumerics {
        moments: moments_of,
        logdet,
        information: mutual_information,
        inverse: inverse_spd,
        accumulate,
        balance: mean_of_two,
        apply,
    };
    read_prior(sparsify_chow_liu(&dense(lambda), &numbers(eta), block_dim, &numerics))
}

fn diagonal(lambda: &DMatrix<f64>, eta: &DVector<f64>, block_dim: usize) -> Option<Prior> {
    let numerics = PriorNumerics {
        moments: moments_of,
        logdet,
        information: mutual_information,
        inverse: inverse_spd,
        accumulate,
        balance: mean_of_two,
        apply,
    };
    read_prior(sparsify_diagonal(&dense(lambda), &numbers(eta), block_dim, &numerics))
}

fn divergence(p: &DMatrix<f64>, q: &DMatrix<f64>) -> Option<f64> {
    let numerics = DivergenceNumerics {
        trace: trace_product,
        logdet,
        combine: divergence_of,
    };
    kl_divergence(&dense(p), &dense(q), &numerics).map(float)
}

fn spd(m: &DMatrix<f64>) -> DMatrix<f64> {
    let n = m.nrows();
    m.transpose() * m + DMatrix::identity(n, n) * (n as f64)
}

fn kl_same_mean(lambda_p: &DMatrix<f64>, lambda_q: &DMatrix<f64>) -> f64 {
    divergence(lambda_p, lambda_q).unwrap()
}

fn node_block(m: &DMatrix<f64>, i: usize, j: usize, b: usize) -> DMatrix<f64> {
    m.view((i * b, j * b), (b, b)).into_owned()
}

/// On a genuinely dense (fully-coupled) 4-node prior, the Chow-Liu tree
/// preserves every NODE marginal and every TREE-EDGE pairwise marginal exactly,
/// has exactly N−1 edges, and zeros every off-tree block.
#[test]
fn chow_liu_preserves_node_and_tree_edge_marginals_and_is_sparse() {
    let b = 2;
    let n = 8; // 4 nodes × 2
    let lambda = spd(&DMatrix::from_fn(n, n, |i, j| {
        ((i * 7 + j * 3) % 11) as f64 * 0.13 - 0.4
    }));
    let eta = DVector::from_fn(n, |i, _| 0.3 * i as f64 - 1.0);

    let sp = chow_liu(&lambda, &eta, b).unwrap();
    assert_eq!(sp.edges.len(), 3, "spanning tree of 4 nodes has 3 edges");

    let sigma = lambda.clone().cholesky().unwrap().inverse();
    let sigma_t = sp.lambda.clone().cholesky().unwrap().inverse();
    // Node marginals preserved.
    for i in 0..4 {
        let d = (node_block(&sigma_t, i, i, b) - node_block(&sigma, i, i, b))
            .abs()
            .max();
        assert!(d < 1e-9, "node {i} marginal not preserved: {d}");
    }
    // Tree-edge pairwise marginals preserved.
    for &(i, j) in &sp.edges {
        let d = (node_block(&sigma_t, i, j, b) - node_block(&sigma, i, j, b))
            .abs()
            .max();
        assert!(d < 1e-9, "tree edge ({i},{j}) cross-cov not preserved: {d}");
    }
    // Off-tree blocks of the information matrix are exactly zero.
    let on_tree =
        |a: usize, c: usize| a == c || sp.edges.contains(&(a, c)) || sp.edges.contains(&(c, a));
    for a in 0..4 {
        for c in 0..4 {
            if !on_tree(a, c) {
                assert!(
                    node_block(&sp.lambda, a, c, b).abs().max() < 1e-12,
                    "off-tree block ({a},{c}) must be zero"
                );
            }
        }
    }
    // The mean is preserved: Λ_tree⁻¹ η_tree == Λ⁻¹ η.
    let mu = lambda.clone().cholesky().unwrap().solve(&eta);
    let mu_t = sp.lambda.clone().cholesky().unwrap().solve(&sp.eta);
    assert!((mu - mu_t).norm() < 1e-9, "mean not preserved");
}

/// When the dense prior is ALREADY tree-structured (block-tridiagonal = a
/// chain), Chow-Liu recovers it exactly — zero KL divergence — because the
/// chain is its own optimal tree.
#[test]
fn exact_recovery_when_prior_is_already_a_tree() {
    let b = 2;
    let num = 4;
    let n = b * num;
    // Build a block-tridiagonal (chain 0-1-2-3) SPD information matrix.
    let mut lambda = DMatrix::<f64>::zeros(n, n);
    for i in 0..num {
        let diag = DMatrix::from_fn(b, b, |r, c| if r == c { 4.0 } else { 0.5 });
        add_block(&mut lambda, i, i, &diag, 1.0);
    }
    for i in 0..(num - 1) {
        let off = DMatrix::from_fn(b, b, |r, c| if r == c { -1.0 } else { 0.2 });
        add_block(&mut lambda, i, i + 1, &off, 1.0);
        add_block(&mut lambda, i + 1, i, &off.transpose(), 1.0);
    }
    lambda = 0.5 * (&lambda + lambda.transpose());
    let eta = DVector::from_fn(n, |i, _| 0.2 * i as f64);

    let sp = chow_liu(&lambda, &eta, b).unwrap();
    // The recovered tree IS the chain, and reproduces the prior exactly.
    let kl = kl_same_mean(&lambda, &sp.lambda);
    assert!(
        kl < 1e-9,
        "tree-structured prior must be recovered exactly, KL={kl}"
    );
    assert!(
        (&lambda - &sp.lambda).abs().max() < 1e-8,
        "Λ_tree must equal the original chain Λ"
    );
}

/// The Chow-Liu tree is the KL-OPTIMAL tree: its KL to the dense prior is no
/// worse than any other spanning tree's. Checked against all spanning trees of
/// a 4-node prior (enumerated by their 3 edges).
#[test]
fn chow_liu_minimizes_kl_over_all_trees() {
    let b = 1; // scalar nodes keep the enumeration cheap
    let num = 4;
    let lambda = spd(&DMatrix::from_fn(num, num, |i, j| {
        ((i * 5 + j * 2) % 7) as f64 * 0.3 - 0.7
    }));
    let eta = DVector::from_fn(num, |i, _| i as f64 - 1.5);
    let sp = chow_liu(&lambda, &eta, b).unwrap();
    let cl_kl = kl_same_mean(&lambda, &sp.lambda);

    // Enumerate every set of 3 edges over 4 nodes that forms a spanning tree,
    // build that tree's Gaussian the same way, and confirm none beats Chow-Liu.
    let all_edges = [(0, 1), (0, 2), (0, 3), (1, 2), (1, 3), (2, 3)];
    let sigma = lambda.clone().cholesky().unwrap().inverse();
    let mu = lambda.clone().cholesky().unwrap().solve(&eta);
    for a in 0..all_edges.len() {
        for bb in (a + 1)..all_edges.len() {
            for c in (bb + 1)..all_edges.len() {
                let edges = [all_edges[a], all_edges[bb], all_edges[c]];
                let mut dsu = DisjointSet::new(num);
                if !edges.iter().all(|&(i, j)| dsu.union(i, j)) {
                    continue; // not a tree (cycle)
                }
                let lam_t = build_tree_lambda(&sigma, &edges, num, b);
                let kl = kl_same_mean(&lambda, &lam_t);
                assert!(
                    cl_kl <= kl + 1e-9,
                    "Chow-Liu KL {cl_kl} must not exceed tree {edges:?} KL {kl}"
                );
                // each candidate also preserves the mean (sanity)
                let mu_t = lam_t
                    .cholesky()
                    .unwrap()
                    .solve(&(&build_tree_lambda(&sigma, &edges, num, b) * &mu));
                assert!((&mu - &mu_t).norm() < 1e-9);
            }
        }
    }
}

/// The information matrix of a given tree.
fn build_tree_lambda(
    sigma: &DMatrix<f64>,
    edges: &[(usize, usize)],
    num: usize,
    b: usize,
) -> DMatrix<f64> {
    let mut degree = vec![0usize; num];
    for &(i, j) in edges {
        degree[i] += 1;
        degree[j] += 1;
    }
    let mut lam = DMatrix::<f64>::zeros(num * b, num * b);
    for &(i, j) in edges {
        let joint = joint_block(sigma, i, j, b);
        let info = joint.cholesky().unwrap().inverse();
        add_block(&mut lam, i, i, &sub_block(&info, 0, 0, b), 1.0);
        add_block(&mut lam, i, j, &sub_block(&info, 0, 1, b), 1.0);
        add_block(&mut lam, j, i, &sub_block(&info, 1, 0, b), 1.0);
        add_block(&mut lam, j, j, &sub_block(&info, 1, 1, b), 1.0);
    }
    for (i, &deg) in degree.iter().enumerate() {
        if deg > 1 {
            let li = node_block(sigma, i, i, b).cholesky().unwrap().inverse();
            add_block(&mut lam, i, i, &li, -((deg - 1) as f64));
        }
    }
    0.5 * (&lam + lam.transpose())
}

/// The diagonal sparsifier preserves every NODE marginal exactly (same
/// guarantee as Chow-Liu) but zeros every off-diagonal block and preserves the
/// mean. The zero-edge contestant.
#[test]
fn diagonal_preserves_node_marginals_and_drops_all_correlations() {
    let b = 2;
    let n = 8; // 4 nodes × 2
    let lambda = spd(&DMatrix::from_fn(n, n, |i, j| {
        ((i * 7 + j * 3) % 11) as f64 * 0.13 - 0.4
    }));
    let eta = DVector::from_fn(n, |i, _| 0.3 * i as f64 - 1.0);

    let sp = diagonal(&lambda, &eta, b).unwrap();
    assert!(sp.edges.is_empty(), "diagonal sparsifier keeps no edges");

    let sigma = lambda.clone().cholesky().unwrap().inverse();
    let sigma_d = sp.lambda.clone().cholesky().unwrap().inverse();
    for i in 0..4 {
        // node marginal preserved
        let d = (node_block(&sigma_d, i, i, b) - node_block(&sigma, i, i, b))
            .abs()
            .max();
        assert!(d < 1e-9, "node {i} marginal not preserved: {d}");
        for j in 0..4 {
            if i != j {
                // every off-diagonal information block is exactly zero
                assert!(
                    node_block(&sp.lambda, i, j, b).abs().max() < 1e-12,
                    "off-diagonal block ({i},{j}) must be zero"
                );
            }
        }
    }
    // Mean preserved: Λ_diag⁻¹ η_diag == Λ⁻¹ η.
    let mu = lambda.clone().cholesky().unwrap().solve(&eta);
    let mu_d = sp.lambda.clone().cholesky().unwrap().solve(&sp.eta);
    assert!((mu - mu_d).norm() < 1e-9, "mean not preserved");
}

/// The head-to-head: on a genuinely correlated dense prior the Chow-Liu tree's
/// KL to the dense prior is STRICTLY smaller than the diagonal (independence)
/// sparsifier's — the `N−1` retained couplings strictly help — while the dense
/// prior itself scores `0`. This is the ordering the sparsification shootout
/// rests on (`0 = dense < Chow-Liu < diagonal`), and it follows from Chow-Liu
/// optimizing over all trees, the edgeless one (= the diagonal) included.
#[test]
fn chow_liu_strictly_beats_diagonal_on_a_correlated_prior() {
    let b = 2;
    let n = 8;
    let lambda = spd(&DMatrix::from_fn(n, n, |i, j| {
        ((i * 5 + j * 2) % 9) as f64 * 0.17 - 0.5
    }));
    let eta = DVector::from_fn(n, |i, _| 0.2 * i as f64 - 0.7);

    let clt = chow_liu(&lambda, &eta, b).unwrap();
    let diag = diagonal(&lambda, &eta, b).unwrap();

    let kl_dense = divergence(&lambda, &lambda).unwrap();
    let kl_clt = divergence(&lambda, &clt.lambda).unwrap();
    let kl_diag = divergence(&lambda, &diag.lambda).unwrap();

    assert!(
        kl_dense.abs() < 1e-12,
        "dense scores zero KL, got {kl_dense}"
    );
    assert!(kl_clt >= -1e-12, "KL is non-negative, got {kl_clt}");
    assert!(
        kl_clt + 1e-9 < kl_diag,
        "Chow-Liu KL {kl_clt} must strictly beat diagonal KL {kl_diag}"
    );
    // Sparsity ordering: 0 edges < N−1 tree edges < N(N−1)/2 dense.
    assert_eq!(diag.edges.len(), 0);
    assert_eq!(clt.edges.len(), 3);
}

/// When the dense prior is ALREADY block-diagonal (independent nodes), the
/// diagonal sparsifier — and Chow-Liu — recover it exactly (KL 0): there is no
/// correlation to keep, so all three contestants coincide.
#[test]
fn diagonal_is_exact_when_prior_is_already_independent() {
    let b = 2;
    let num = 3;
    let n = b * num;
    let mut lambda = DMatrix::<f64>::zeros(n, n);
    for i in 0..num {
        let diag = DMatrix::from_fn(b, b, |r, c| if r == c { 3.0 + i as f64 } else { 0.4 });
        add_block(&mut lambda, i, i, &diag, 1.0);
    }
    lambda = 0.5 * (&lambda + lambda.transpose());
    let eta = DVector::from_fn(n, |i, _| 0.1 * i as f64);

    let diag = diagonal(&lambda, &eta, b).unwrap();
    let kl = divergence(&lambda, &diag.lambda).unwrap();
    assert!(
        kl < 1e-9,
        "independent prior must be recovered exactly, KL={kl}"
    );
    assert!(
        (&lambda - &diag.lambda).abs().max() < 1e-9,
        "Λ_diag must equal the original block-diagonal Λ"
    );
}

#[test]
fn rejects_bad_inputs_and_passes_through_single_block() {
    let lambda = spd(&DMatrix::from_fn(4, 4, |i, j| (i + j) as f64 * 0.1));
    let eta = DVector::from_fn(4, |i, _| i as f64);
    assert!(chow_liu(&lambda, &eta, 0).is_none()); // block_dim 0
    assert!(chow_liu(&lambda, &eta, 3).is_none()); // 4 not divisible by 3
                                                            // Single block (N=1): returned unchanged, no edges.
    let sp = chow_liu(&lambda, &eta, 4).unwrap();
    assert!(sp.edges.is_empty());
    assert!((&sp.lambda - &lambda).abs().max() < 1e-12);
}

#[test]
fn shapes_and_indefinite_priors_are_rejected() {
    let square = DMatrix::identity(4, 4);
    let eta = DVector::from_element(4, 1.0);
    assert!(chow_liu(&DMatrix::zeros(4, 3), &eta, 2).is_none());
    assert!(chow_liu(&square, &DVector::from_element(3, 1.0), 2).is_none());
    assert!(chow_liu(&(-&square), &eta, 2).is_none());
    assert!(diagonal(&square, &eta, 0).is_none());
    assert!(diagonal(&square, &eta, 3).is_none());
    assert!(diagonal(&(-&square), &eta, 2).is_none());
    assert_eq!(divergence(&square, &DMatrix::identity(3, 3)), None);
    assert_eq!(divergence(&square, &(-&square)), None);
    assert_eq!(divergence(&square, &square), Some(0.0));
    // Twice the information of every one of four dimensions: half of 8 - 4 - 4 ln 2.
    let twice = divergence(&square, &(2.0 * &square)).unwrap();
    assert!((twice - (2.0 - 2.0 * 2.0_f64.ln())).abs() < 1e-12);
    assert_eq!(block_count(6, 6, 6, 2), Some(3));
    assert_eq!(block_count(6, 6, 5, 2), None);
}

#[test]
fn tree_edges_never_close_a_cycle() {
    let n = 6;
    let lambda = spd(&DMatrix::from_fn(n, n, |i, j| ((i * 3 + j * 5) % 8) as f64 * 0.2 - 0.6));
    let prior = chow_liu(&lambda, &DVector::zeros(n), 1).unwrap();
    assert_eq!(prior.edges.len(), n - 1);
    let mut sets = DisjointSet::new(n);
    for (i, j) in prior.edges {
        assert!(i < j);
        assert!(sets.union(i, j));
        assert_eq!(sets.find(i), sets.find(j));
    }
}

#[test]
fn the_heaviest_candidates_form_the_tree() {
    let edge = |weight: f64, i: usize, j: usize| WeightedEdge { weight: scalar(weight), i, j };
    let candidates = [edge(1.0, 0, 1), edge(3.0, 1, 2), edge(2.0, 0, 2), edge(0.5, 2, 3)];
    let tree = chow_liu_tree(4, &candidates).unwrap();
    assert_eq!(tree.edges, vec![(1, 2), (0, 2), (2, 3)]);
    assert_eq!(tree.degree, vec![1, 1, 3, 1]);
    assert_eq!(chow_liu_tree(4, &candidates[..3]), None);
    // Equal weights keep their order.
    let even = [edge(1.0, 0, 2), edge(1.0, 0, 1), edge(1.0, 1, 2)];
    assert_eq!(chow_liu_tree(3, &even).unwrap().edges, vec![(0, 2), (0, 1)]);
}

#[test]
fn a_set_of_n_nodes_is_joined_at_most_n_minus_one_times() {
    let mut sets = DisjointSet::new(5);
    let mut joins = 0;
    for i in 0..5 {
        for j in 0..5 {
            if sets.union(i, j) {
                joins += 1;
            }
        }
    }
    assert_eq!(joins, 4);
}

#[test]
fn blocks_off_the_tree_are_exactly_zero() {
    let (n, b) = (8, 2);
    let lambda = spd(&DMatrix::from_fn(n, n, |i, j| ((i * 3 + j * 5) % 7) as f64 * 0.2 - 0.5));
    let prior = chow_liu(&lambda, &DVector::zeros(n), b).unwrap();
    let independent = diagonal(&lambda, &DVector::zeros(n), b).unwrap();
    assert_eq!(prior.edges.len(), 3);
    let mut dropped = 0;
    for row in 0..n {
        for col in 0..n {
            let (x, y) = (row / b, col / b);
            if x == y {
                continue;
            }
            assert_eq!(independent.lambda[(row, col)], 0.0);
            if !prior.edges.contains(&(x, y)) && !prior.edges.contains(&(y, x)) {
                assert_eq!(prior.lambda[(row, col)], 0.0);
                dropped += 1;
            }
        }
    }
    assert_eq!(dropped, 24);
}

#[test]
fn parts_are_cut_out_and_added_in_place() {
    let values = |rows: usize, list: &[f64]| DenseMatrix {
        rows,
        columns: rows,
        entries: list.iter().map(|value| scalar(*value)).collect(),
    };
    let whole = values(3, &[1.0, 2.0, 3.0, 4.0, 5.0, 6.0, 7.0, 8.0, 9.0]);
    let places = vec![2, 0];
    let part = whole.part(&places);
    assert_eq!(part, values(2, &[9.0, 7.0, 3.0, 1.0]));
    let sum = whole.plus_at(&places, &part, -2, &accumulate);
    assert_eq!(sum, values(3, &[-1.0, 2.0, -3.0, 4.0, 5.0, 6.0, -7.0, 8.0, -9.0]));
    assert_eq!(
        whole.balanced(&mean_of_two),
        values(3, &[1.0, 3.0, 5.0, 3.0, 5.0, 7.0, 5.0, 7.0, 9.0])
    );
    assert_eq!(DenseMatrix::zero(2), values(2, &[0.0; 4]));
    assert_eq!(whole.get(1, 2), scalar(6.0));
    assert_eq!(whole.copy(), whole);
}
