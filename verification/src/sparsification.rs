//! Sparsification of a dense Gaussian marginalization prior.
//!
//! Marginalizing a state fills in a fully connected clique among its neighbours. Among all
//! tree-structured Gaussians, the one closest to such a dense prior is the maximum-weight
//! spanning tree whose edge weights are the pairwise mutual informations (Chow and Liu).
//! This module checks the shapes, cuts out the blocks, selects the tree, and adds up the
//! blocks that make up the sparse information matrix; inverses, determinants and the
//! arithmetic on entries come from the functions in [`PriorNumerics`], which the caller
//! supplies.
use crate::dense_matrix::{
    are_places, copy_entries, is_balanced, is_sum_at, was_added, DenseMatrix,
};
use crate::scalar::Scalar;
use crate::sequences::lists_kept;
use crate::spanning_tree::{
    chow_liu_edges, chow_liu_edges_are_candidates, chow_liu_edges_have_no_cycle, chow_liu_tree,
    connected, connected_by_an_edge, degree_of, edges_in_range, is_edge_of, WeightedEdge,
};
use vstd::prelude::*;

verus! {

/// Covariance and mean of a Gaussian.
#[derive(Clone, Debug, PartialEq, Eq)]
pub struct Moments {
    pub sigma: DenseMatrix,
    pub mu: Vec<Scalar>,
}

/// A Gaussian by its information matrix and information vector.
#[derive(Clone, Debug, PartialEq, Eq)]
pub struct InformationForm {
    pub lambda: DenseMatrix,
    pub eta: Vec<Scalar>,
}

/// A sparsified prior: the information system and the pairs of blocks that it couples.
#[derive(Clone, Debug, PartialEq, Eq)]
pub struct SparsifiedPrior {
    pub lambda: DenseMatrix,
    pub eta: Vec<Scalar>,
    /// Block indices of the retained couplings, the smaller one first.
    pub edges: Vec<(usize, usize)>,
}

/// The arithmetic that sparsification rests on.
pub struct PriorNumerics<M, L, I, V, A, B, E> {
    /// The moments of a prior in information form; none where its information matrix is not
    /// positive definite.
    pub moments: M,
    /// The log-determinant of a covariance; none where it is not positive definite.
    pub logdet: L,
    /// The mutual information by the log-determinants of two blocks and of their joint
    /// covariance.
    pub information: I,
    /// The inverse of a covariance; none where it is not positive definite.
    pub inverse: V,
    /// A sum with a multiple of a number added: sum, number, factor.
    pub accumulate: A,
    /// The mean of an entry and its mirror image across the diagonal.
    pub balance: B,
    /// A matrix applied to a vector.
    pub apply: E,
}

impl<M, L, I, V, A, B, E> PriorNumerics<M, L, I, V, A, B, E> where
    M: Fn(&DenseMatrix, &Vec<Scalar>) -> Option<Moments>,
    L: Fn(&DenseMatrix) -> Option<Scalar>,
    I: Fn(Scalar, Scalar, Scalar) -> Scalar,
    V: Fn(&DenseMatrix) -> Option<DenseMatrix>,
    A: Fn(Scalar, Scalar, i128) -> Scalar,
    B: Fn(Scalar, Scalar) -> Scalar,
    E: Fn(&DenseMatrix, &Vec<Scalar>) -> Vec<Scalar>,
{
    /// The functions take any argument, covariances and inverses have the shape of what they
    /// are computed from, and a mutual information is a number.
    pub open spec fn callable(self) -> bool {
        &&& forall|lambda: DenseMatrix, eta: Vec<Scalar>|
            call_requires(self.moments, (&lambda, &eta))
        &&& forall|lambda: DenseMatrix, eta: Vec<Scalar>, found: Moments| #[trigger]
            call_ensures(self.moments, (&lambda, &eta), Some(found)) ==> found.sigma.is_square(
                lambda.rows as int,
            )
        &&& forall|matrix: DenseMatrix| call_requires(self.logdet, (&matrix,))
        &&& forall|one: Scalar, other: Scalar, joint: Scalar|
            call_requires(self.information, (one, other, joint))
        &&& forall|one: Scalar, other: Scalar, joint: Scalar, found: Scalar|
            call_ensures(self.information, (one, other, joint), found) ==> !found.is_nan()
        &&& forall|matrix: DenseMatrix| call_requires(self.inverse, (&matrix,))
        &&& forall|matrix: DenseMatrix, found: DenseMatrix| #[trigger]
            call_ensures(self.inverse, (&matrix,), Some(found)) ==> found.is_square(
                matrix.rows as int,
            )
        &&& forall|sum: Scalar, value: Scalar, factor: i128|
            call_requires(self.accumulate, (sum, value, factor))
        &&& forall|one: Scalar, other: Scalar| call_requires(self.balance, (one, other))
        &&& forall|matrix: DenseMatrix, vector: Vec<Scalar>|
            call_requires(self.apply, (&matrix, &vector))
    }
}

/// The rows, or columns, of a block.
pub open spec fn block_places(block: int, block_dim: int) -> Seq<usize> {
    Seq::new(block_dim as nat, |k: int| (block * block_dim + k) as usize)
}

/// The rows, or columns, of two blocks, one block after the other.
pub open spec fn pair_places(i: int, j: int, block_dim: int) -> Seq<usize> {
    block_places(i, block_dim) + block_places(j, block_dim)
}

proof fn lemma_block_in_range(block: int, k: int, block_dim: int, count: int)
    requires
        0 <= block < count,
        0 <= k < block_dim,
    ensures
        0 <= block * block_dim <= block * block_dim + k < (block + 1) * block_dim <= count
            * block_dim,
{
    assert(0 <= block * block_dim) by (nonlinear_arith)
        requires
            0 <= block,
            0 <= block_dim,
    ;
    assert((block + 1) * block_dim == block * block_dim + block_dim) by (nonlinear_arith);
    assert((block + 1) * block_dim <= count * block_dim) by (nonlinear_arith)
        requires
            block + 1 <= count,
            0 <= block_dim,
    ;
}

proof fn lemma_places(i: int, j: int, block_dim: int, count: int)
    requires
        0 <= i < j < count,
        0 < block_dim,
        count * block_dim <= usize::MAX,
    ensures
        are_places(block_places(i, block_dim), count * block_dim),
        are_places(block_places(j, block_dim), count * block_dim),
        are_places(pair_places(i, j, block_dim), count * block_dim),
{
    let n = count * block_dim;
    assert forall|k: int| 0 <= k < block_dim implies 0 <= i * block_dim + k < (i + 1) * block_dim
        <= n && i * block_dim + k == #[trigger] block_places(i, block_dim)[k] by {
        lemma_block_in_range(i, k, block_dim, count);
    }
    assert forall|k: int| 0 <= k < block_dim implies (i + 1) * block_dim <= j * block_dim + k < n
        && j * block_dim + k == #[trigger] block_places(j, block_dim)[k] by {
        lemma_block_in_range(j, k, block_dim, count);
        assert((i + 1) * block_dim <= j * block_dim) by (nonlinear_arith)
            requires
                i + 1 <= j,
                0 < block_dim,
        ;
    }
    let pair = pair_places(i, j, block_dim);
    assert forall|a: int, b: int| 0 <= a < b < pair.len() implies pair[a] != pair[b] by {
        if b < block_dim {
            assert(pair[a] == block_places(i, block_dim)[a]);
            assert(pair[b] == block_places(i, block_dim)[b]);
        } else if a < block_dim {
            assert(pair[a] == block_places(i, block_dim)[a]);
            assert(pair[b] == block_places(j, block_dim)[b - block_dim]);
        } else {
            assert(pair[a] == block_places(j, block_dim)[a - block_dim]);
            assert(pair[b] == block_places(j, block_dim)[b - block_dim]);
        }
    }
    assert forall|k: int| 0 <= k < pair.len() implies (#[trigger] pair[k]) < n by {
        if k < block_dim {
            assert(pair[k] == block_places(i, block_dim)[k]);
        } else {
            assert(pair[k] == block_places(j, block_dim)[k - block_dim]);
        }
    }
}

proof fn lemma_block_places(block: int, block_dim: int, count: int)
    requires
        0 <= block < count,
        0 < block_dim,
        count * block_dim <= usize::MAX,
    ensures
        are_places(block_places(block, block_dim), count * block_dim),
        forall|k: int|
            0 <= k < block_dim ==> #[trigger] block_places(block, block_dim)[k] == block
                * block_dim + k,
{
    assert forall|k: int| 0 <= k < block_dim implies #[trigger] block_places(block, block_dim)[k]
        == block * block_dim + k && block * block_dim + k < count * block_dim by {
        lemma_block_in_range(block, k, block_dim, count);
    }
}

/// Appends the rows of a block to a list.
fn push_block(places: &mut Vec<usize>, block: usize, block_dim: usize, Ghost(count): Ghost<int>)
    requires
        block < count,
        0 < block_dim,
        count * block_dim <= usize::MAX,
    ensures
        final(places)@ == old(places)@ + block_places(block as int, block_dim as int),
{
    let mut k: usize = 0;
    while k < block_dim
        invariant
            k <= block_dim,
            block < count,
            0 < block_dim,
            count * block_dim <= usize::MAX,
            places@ == old(places)@ + block_places(block as int, block_dim as int).take(k as int),
        decreases block_dim - k,
    {
        proof {
            lemma_block_in_range(block as int, k as int, block_dim as int, count);
        }
        places.push(block * block_dim + k);
        k += 1;
        assert(places@ =~= old(places)@ + block_places(block as int, block_dim as int).take(
            k as int,
        ));
    }
    assert(block_places(block as int, block_dim as int).take(block_dim as int) =~= block_places(
        block as int,
        block_dim as int,
    ));
}

/// The rows of a block.
fn list_block(block: usize, block_dim: usize, Ghost(count): Ghost<int>) -> (places: Vec<usize>)
    requires
        block < count,
        0 < block_dim,
        count * block_dim <= usize::MAX,
    ensures
        places@ == block_places(block as int, block_dim as int),
        are_places(places@, count * block_dim),
{
    let mut places: Vec<usize> = Vec::new();
    push_block(&mut places, block, block_dim, Ghost(count));
    proof {
        lemma_block_places(block as int, block_dim as int, count);
    }
    assert(places@ =~= block_places(block as int, block_dim as int));
    places
}

/// The rows of two blocks.
fn list_pair(i: usize, j: usize, block_dim: usize, Ghost(count): Ghost<int>) -> (places: Vec<usize>)
    requires
        i < j < count,
        0 < block_dim,
        count * block_dim <= usize::MAX,
    ensures
        places@ == pair_places(i as int, j as int, block_dim as int),
        are_places(places@, count * block_dim),
{
    let mut places: Vec<usize> = Vec::new();
    push_block(&mut places, i, block_dim, Ghost(count));
    push_block(&mut places, j, block_dim, Ghost(count));
    proof {
        lemma_places(i as int, j as int, block_dim as int, count);
    }
    assert(places@ =~= pair_places(i as int, j as int, block_dim as int));
    places
}

/// `log` is the log-determinant of the part of a covariance at some places.
pub open spec fn is_part_log<M, L, I, V, A, B, E>(
    sigma: DenseMatrix,
    places: Seq<usize>,
    numerics: PriorNumerics<M, L, I, V, A, B, E>,
    log: Option<Scalar>,
) -> bool where
    M: Fn(&DenseMatrix, &Vec<Scalar>) -> Option<Moments>,
    L: Fn(&DenseMatrix) -> Option<Scalar>,
    I: Fn(Scalar, Scalar, Scalar) -> Scalar,
    V: Fn(&DenseMatrix) -> Option<DenseMatrix>,
    A: Fn(Scalar, Scalar, i128) -> Scalar,
    B: Fn(Scalar, Scalar) -> Scalar,
    E: Fn(&DenseMatrix, &Vec<Scalar>) -> Vec<Scalar>,
{
    exists|part: DenseMatrix|
        sigma.has_part(places, part) && #[trigger] call_ensures(numerics.logdet, (&part,), log)
}

fn measure_part<M, L, I, V, A, B, E>(
    sigma: &DenseMatrix,
    places: &Vec<usize>,
    numerics: &PriorNumerics<M, L, I, V, A, B, E>,
) -> (log: Option<Scalar>) where
    M: Fn(&DenseMatrix, &Vec<Scalar>) -> Option<Moments>,
    L: Fn(&DenseMatrix) -> Option<Scalar>,
    I: Fn(Scalar, Scalar, Scalar) -> Scalar,
    V: Fn(&DenseMatrix) -> Option<DenseMatrix>,
    A: Fn(Scalar, Scalar, i128) -> Scalar,
    B: Fn(Scalar, Scalar) -> Scalar,
    E: Fn(&DenseMatrix, &Vec<Scalar>) -> Vec<Scalar>,

    requires
        numerics.callable(),
        sigma.is_square(sigma.rows as int),
        are_places(places@, sigma.rows as int),
        places.len() * places.len() <= usize::MAX,
    ensures
        is_part_log(*sigma, places@, *numerics, log),
{
    let part = sigma.part(places);
    (numerics.logdet)(&part)
}

/// A square matrix of `count` blocks on a side.
pub open spec fn is_divided(sigma: DenseMatrix, block_dim: usize, count: usize) -> bool {
    &&& block_dim > 0
    &&& sigma.is_square(count * block_dim)
}

proof fn lemma_part_sizes(sigma: DenseMatrix, block_dim: usize, count: usize)
    requires
        is_divided(sigma, block_dim, count),
        count >= 1,
    ensures
        block_dim * block_dim <= usize::MAX,
        count >= 2 ==> (block_dim + block_dim) * (block_dim + block_dim) <= usize::MAX,
        count * block_dim <= usize::MAX,
{
    let n = count * block_dim;
    assert(n * n == sigma.entries.len());
    assert(block_dim * block_dim <= n * n) by (nonlinear_arith)
        requires
            n == count * block_dim,
            count >= 1,
            block_dim >= 0,
    ;
    if count >= 2 {
        assert((block_dim + block_dim) * (block_dim + block_dim) <= n * n) by (nonlinear_arith)
            requires
                n == count * block_dim,
                count >= 2,
                block_dim >= 0,
        ;
    }
}

/// The number of blocks of a prior with an information matrix of the given shape and
/// an information vector of the given length; none where the shapes disagree or the
/// dimension is not a multiple of a positive block size.
pub fn block_count(rows: usize, columns: usize, eta_len: usize, block_dim: usize) -> (count: Option<
    usize,
>)
    ensures
        count is Some <==> block_dim > 0 && columns == rows && eta_len == rows && rows % block_dim
            == 0,
        count matches Some(n) ==> n == rows / block_dim,
{
    if block_dim == 0 || columns != rows || eta_len != rows || rows % block_dim != 0 {
        None
    } else {
        Some(rows / block_dim)
    }
}

proof fn lemma_blocks_fill(rows: int, block_dim: int)
    requires
        0 <= rows,
        0 < block_dim,
        rows % block_dim == 0,
    ensures
        rows / block_dim * block_dim == rows,
{
    vstd::arithmetic::div_mod::lemma_fundamental_div_mod(rows, block_dim);
    assert(rows / block_dim * block_dim == block_dim * (rows / block_dim)) by (nonlinear_arith);
}

/// The pairs of one block with every later one.
pub open spec fn pairs_from(i: int, n: int) -> Seq<(usize, usize)> {
    Seq::new((n - i - 1) as nat, |k: int| (i as usize, (i + 1 + k) as usize))
}

/// The pairs of `n` blocks whose first block is one of the first `count`, in order.
pub open spec fn pairs_of_first(count: nat, n: int) -> Seq<(usize, usize)>
    decreases count,
{
    if count == 0 {
        Seq::empty()
    } else {
        pairs_of_first((count - 1) as nat, n) + pairs_from(count - 1, n)
    }
}

fn list_pairs(n: usize) -> (pairs: Vec<(usize, usize)>)
    ensures
        pairs@ == pairs_of_first(n as nat, n as int),
        forall|k: int|
            0 <= k < pairs.len() ==> (#[trigger] pairs[k]).0 < pairs[k].1 && pairs[k].1 < n,
{
    let mut pairs: Vec<(usize, usize)> = Vec::new();
    let mut i: usize = 0;
    while i < n
        invariant
            i <= n,
            pairs@ == pairs_of_first(i as nat, n as int),
            forall|k: int|
                0 <= k < pairs.len() ==> (#[trigger] pairs[k]).0 < pairs[k].1 && pairs[k].1 < n,
        decreases n - i,
    {
        let ghost before = pairs@;
        let mut j: usize = i + 1;
        while j < n
            invariant
                i < j <= n,
                pairs@ == before + pairs_from(i as int, n as int).take(j - i - 1),
                forall|k: int|
                    0 <= k < pairs.len() ==> (#[trigger] pairs[k]).0 < pairs[k].1 && pairs[k].1
                        < n,
            decreases n - j,
        {
            pairs.push((i, j));
            j += 1;
            assert(pairs@ =~= before + pairs_from(i as int, n as int).take(j - i - 1));
        }
        assert(pairs_from(i as int, n as int).take(n - i - 1) =~= pairs_from(i as int, n as int));
        i += 1;
    }
    pairs
}

/// `logs` are the log-determinants of the blocks; none where one of them has none.
pub open spec fn is_node_logs<M, L, I, V, A, B, E>(
    sigma: DenseMatrix,
    block_dim: usize,
    count: usize,
    numerics: PriorNumerics<M, L, I, V, A, B, E>,
    logs: Option<Seq<Scalar>>,
) -> bool where
    M: Fn(&DenseMatrix, &Vec<Scalar>) -> Option<Moments>,
    L: Fn(&DenseMatrix) -> Option<Scalar>,
    I: Fn(Scalar, Scalar, Scalar) -> Scalar,
    V: Fn(&DenseMatrix) -> Option<DenseMatrix>,
    A: Fn(Scalar, Scalar, i128) -> Scalar,
    B: Fn(Scalar, Scalar) -> Scalar,
    E: Fn(&DenseMatrix, &Vec<Scalar>) -> Vec<Scalar>,
{
    match logs {
        Some(logs) => {
            &&& logs.len() == count
            &&& forall|i: int|
                0 <= i < count ==> is_part_log(
                    sigma,
                    block_places(i, block_dim as int),
                    numerics,
                    Some(#[trigger] logs[i]),
                )
        },
        None => exists|i: int|
            0 <= i < count && #[trigger] is_part_log(
                sigma,
                block_places(i, block_dim as int),
                numerics,
                None,
            ),
    }
}

fn measure_nodes<M, L, I, V, A, B, E>(
    sigma: &DenseMatrix,
    block_dim: usize,
    count: usize,
    numerics: &PriorNumerics<M, L, I, V, A, B, E>,
) -> (logs: Option<Vec<Scalar>>) where
    M: Fn(&DenseMatrix, &Vec<Scalar>) -> Option<Moments>,
    L: Fn(&DenseMatrix) -> Option<Scalar>,
    I: Fn(Scalar, Scalar, Scalar) -> Scalar,
    V: Fn(&DenseMatrix) -> Option<DenseMatrix>,
    A: Fn(Scalar, Scalar, i128) -> Scalar,
    B: Fn(Scalar, Scalar) -> Scalar,
    E: Fn(&DenseMatrix, &Vec<Scalar>) -> Vec<Scalar>,

    requires
        numerics.callable(),
        is_divided(*sigma, block_dim, count),
        count >= 1,
    ensures
        is_node_logs(
            *sigma,
            block_dim,
            count,
            *numerics,
            match logs {
                Some(list) => Some(list@),
                None => None,
            },
        ),
{
    proof {
        lemma_part_sizes(*sigma, block_dim, count);
    }
    let mut logs: Vec<Scalar> = Vec::new();
    let mut i: usize = 0;
    while i < count
        invariant
            i <= count,
            numerics.callable(),
            is_divided(*sigma, block_dim, count),
            block_dim * block_dim <= usize::MAX,
            count * block_dim <= usize::MAX,
            logs.len() == i,
            forall|k: int|
                0 <= k < i ==> is_part_log(
                    *sigma,
                    block_places(k, block_dim as int),
                    *numerics,
                    Some(#[trigger] logs[k]),
                ),
        decreases count - i,
    {
        let places = list_block(i, block_dim, Ghost(count as int));
        match measure_part(sigma, &places, numerics) {
            Some(log) => {
                let ghost before = logs@;
                logs.push(log);
                assert forall|k: int| 0 <= k < i + 1 implies is_part_log(
                    *sigma,
                    block_places(k, block_dim as int),
                    *numerics,
                    Some(#[trigger] logs[k]),
                ) by {
                    if k < i {
                        assert(logs[k] == before[k]);
                    }
                }
                i += 1;
            },
            None => {
                assert(is_part_log(
                    *sigma,
                    block_places(i as int, block_dim as int),
                    *numerics,
                    None,
                ));
                return None;
            },
        }
    }
    Some(logs)
}

/// `weight` is the mutual information of a pair of blocks; none where their joint
/// covariance has no log-determinant.
pub open spec fn is_pair_weight<M, L, I, V, A, B, E>(
    sigma: DenseMatrix,
    block_dim: usize,
    logs: Seq<Scalar>,
    pair: (usize, usize),
    numerics: PriorNumerics<M, L, I, V, A, B, E>,
    weight: Option<Scalar>,
) -> bool where
    M: Fn(&DenseMatrix, &Vec<Scalar>) -> Option<Moments>,
    L: Fn(&DenseMatrix) -> Option<Scalar>,
    I: Fn(Scalar, Scalar, Scalar) -> Scalar,
    V: Fn(&DenseMatrix) -> Option<DenseMatrix>,
    A: Fn(Scalar, Scalar, i128) -> Scalar,
    B: Fn(Scalar, Scalar) -> Scalar,
    E: Fn(&DenseMatrix, &Vec<Scalar>) -> Vec<Scalar>,
{
    match weight {
        None => is_part_log(
            sigma,
            pair_places(pair.0 as int, pair.1 as int, block_dim as int),
            numerics,
            None,
        ),
        Some(weight) => exists|joint: Scalar|
            {
                &&& #[trigger] is_part_log(
                    sigma,
                    pair_places(pair.0 as int, pair.1 as int, block_dim as int),
                    numerics,
                    Some(joint),
                )
                &&& call_ensures(
                    numerics.information,
                    (logs[pair.0 as int], logs[pair.1 as int], joint),
                    weight,
                )
            },
    }
}

/// The pairs that have a weight, as candidate edges.
pub open spec fn weighted(
    pairs: Seq<(usize, usize)>,
    weights: Seq<Option<Scalar>>,
    n: nat,
) -> Seq<WeightedEdge>
    decreases n,
{
    if n == 0 {
        Seq::empty()
    } else {
        let before = weighted(pairs, weights, (n - 1) as nat);
        match weights[n - 1] {
            Some(weight) => before.push(
                WeightedEdge { weight, i: pairs[n - 1].0, j: pairs[n - 1].1 },
            ),
            None => before,
        }
    }
}

proof fn lemma_weighted_same(
    pairs: Seq<(usize, usize)>,
    weights: Seq<Option<Scalar>>,
    other: Seq<Option<Scalar>>,
    n: nat,
)
    requires
        forall|k: int| 0 <= k < n ==> weights[k] == other[k],
    ensures
        weighted(pairs, weights, n) == weighted(pairs, other, n),
    decreases n,
{
    if n > 0 {
        lemma_weighted_same(pairs, weights, other, (n - 1) as nat);
    }
}

/// `candidates` are the pairs of blocks with their mutual informations.
pub open spec fn is_candidates<M, L, I, V, A, B, E>(
    sigma: DenseMatrix,
    block_dim: usize,
    logs: Seq<Scalar>,
    numerics: PriorNumerics<M, L, I, V, A, B, E>,
    weights: Seq<Option<Scalar>>,
    candidates: Seq<WeightedEdge>,
) -> bool where
    M: Fn(&DenseMatrix, &Vec<Scalar>) -> Option<Moments>,
    L: Fn(&DenseMatrix) -> Option<Scalar>,
    I: Fn(Scalar, Scalar, Scalar) -> Scalar,
    V: Fn(&DenseMatrix) -> Option<DenseMatrix>,
    A: Fn(Scalar, Scalar, i128) -> Scalar,
    B: Fn(Scalar, Scalar) -> Scalar,
    E: Fn(&DenseMatrix, &Vec<Scalar>) -> Vec<Scalar>,
{
    let pairs = pairs_of_first(logs.len(), logs.len() as int);
    &&& weights.len() == pairs.len()
    &&& forall|k: int|
        0 <= k < pairs.len() ==> is_pair_weight(
            sigma,
            block_dim,
            logs,
            pairs[k],
            numerics,
            #[trigger] weights[k],
        )
    &&& candidates == weighted(pairs, weights, pairs.len())
}

fn measure_pairs<M, L, I, V, A, B, E>(
    sigma: &DenseMatrix,
    block_dim: usize,
    logs: &Vec<Scalar>,
    numerics: &PriorNumerics<M, L, I, V, A, B, E>,
) -> (found: (Vec<WeightedEdge>, Ghost<Seq<Option<Scalar>>>)) where
    M: Fn(&DenseMatrix, &Vec<Scalar>) -> Option<Moments>,
    L: Fn(&DenseMatrix) -> Option<Scalar>,
    I: Fn(Scalar, Scalar, Scalar) -> Scalar,
    V: Fn(&DenseMatrix) -> Option<DenseMatrix>,
    A: Fn(Scalar, Scalar, i128) -> Scalar,
    B: Fn(Scalar, Scalar) -> Scalar,
    E: Fn(&DenseMatrix, &Vec<Scalar>) -> Vec<Scalar>,

    requires
        numerics.callable(),
        is_divided(*sigma, block_dim, logs.len()),
        logs.len() >= 2,
    ensures
        is_candidates(*sigma, block_dim, logs@, *numerics, found.1@, found.0@),
        edges_in_range(found.0@, logs.len() as int),
        forall|k: int| 0 <= k < found.0.len() ==> !(#[trigger] found.0[k]).weight.is_nan(),
        forall|k: int| 0 <= k < found.0.len() ==> (#[trigger] found.0[k]).i < found.0[k].j,
{
    proof {
        lemma_part_sizes(*sigma, block_dim, logs.len());
    }
    let pairs = list_pairs(logs.len());
    let mut candidates: Vec<WeightedEdge> = Vec::new();
    let ghost mut weights: Seq<Option<Scalar>> = Seq::empty();
    let mut k: usize = 0;
    while k < pairs.len()
        invariant
            k <= pairs.len(),
            numerics.callable(),
            is_divided(*sigma, block_dim, logs.len()),
            (block_dim + block_dim) * (block_dim + block_dim) <= usize::MAX,
            logs.len() * block_dim <= usize::MAX,
            forall|m: int|
                0 <= m < pairs.len() ==> (#[trigger] pairs[m]).0 < pairs[m].1 && pairs[m].1
                    < logs.len(),
            weights.len() == k,
            forall|m: int|
                0 <= m < k ==> is_pair_weight(
                    *sigma,
                    block_dim,
                    logs@,
                    pairs[m],
                    *numerics,
                    #[trigger] weights[m],
                ),
            candidates@ == weighted(pairs@, weights, k as nat),
            edges_in_range(candidates@, logs.len() as int),
            forall|m: int|
                0 <= m < candidates.len() ==> !(#[trigger] candidates[m]).weight.is_nan(),
            forall|m: int|
                0 <= m < candidates.len() ==> (#[trigger] candidates[m]).i < candidates[m].j,
        decreases pairs.len() - k,
    {
        let (i, j) = pairs[k];
        let ghost before = weights;
        let places = list_pair(i, j, block_dim, Ghost(logs.len() as int));
        match measure_part(sigma, &places, numerics) {
            Some(joint) => {
                let weight = (numerics.information)(logs[i], logs[j], joint);
                candidates.push(WeightedEdge { weight, i, j });
                proof {
                    weights = weights.push(Some(weight));
                    assert(is_pair_weight(
                        *sigma,
                        block_dim,
                        logs@,
                        pairs[k as int],
                        *numerics,
                        weights[k as int],
                    ));
                }
            },
            None => {
                proof {
                    weights = weights.push(None);
                    assert(is_pair_weight(
                        *sigma,
                        block_dim,
                        logs@,
                        pairs[k as int],
                        *numerics,
                        weights[k as int],
                    ));
                }
            },
        }
        proof {
            lemma_weighted_same(pairs@, before, weights, k as nat);
        }
        k += 1;
    }
    (candidates, Ghost(weights))
}

/// One addition to an information matrix.
#[derive(Clone, Copy, Debug, PartialEq, Eq, Structural)]
pub enum AssemblyStep {
    /// The joint information of two blocks.
    Pair { i: usize, j: usize },
    /// A multiple of the marginal information of a block.
    Node { block: usize, factor: i128 },
}

/// The rows and columns that a step adds to.
pub open spec fn step_places(step: AssemblyStep, block_dim: int) -> Seq<usize> {
    match step {
        AssemblyStep::Pair { i, j } => pair_places(i as int, j as int, block_dim),
        AssemblyStep::Node { block, factor } => block_places(block as int, block_dim),
    }
}

/// How often a step adds.
pub open spec fn step_factor(step: AssemblyStep) -> i128 {
    match step {
        AssemblyStep::Pair { i, j } => 1,
        AssemblyStep::Node { block, factor } => factor,
    }
}

/// The blocks of a step are among the first `count`, and those of a pair in order.
pub open spec fn is_step_among(step: AssemblyStep, count: int) -> bool {
    match step {
        AssemblyStep::Pair { i, j } => i < j < count,
        AssemblyStep::Node { block, factor } => block < count,
    }
}

/// `after` is the sum with one step added, if there is one: the inverse of the covariance at
/// the step's places, added at the same places.
pub open spec fn is_step<M, L, I, V, A, B, E>(
    before: DenseMatrix,
    step: AssemblyStep,
    sigma: DenseMatrix,
    block_dim: usize,
    numerics: PriorNumerics<M, L, I, V, A, B, E>,
    after: Option<DenseMatrix>,
) -> bool where
    M: Fn(&DenseMatrix, &Vec<Scalar>) -> Option<Moments>,
    L: Fn(&DenseMatrix) -> Option<Scalar>,
    I: Fn(Scalar, Scalar, Scalar) -> Scalar,
    V: Fn(&DenseMatrix) -> Option<DenseMatrix>,
    A: Fn(Scalar, Scalar, i128) -> Scalar,
    B: Fn(Scalar, Scalar) -> Scalar,
    E: Fn(&DenseMatrix, &Vec<Scalar>) -> Vec<Scalar>,
{
    let places = step_places(step, block_dim as int);
    exists|part: DenseMatrix, inverse: Option<DenseMatrix>|
        {
            &&& sigma.has_part(places, part)
            &&& #[trigger] call_ensures(numerics.inverse, (&part,), inverse)
            &&& match (inverse, after) {
                (Some(inverse), Some(after)) => is_sum_at(
                    before,
                    places,
                    inverse,
                    step_factor(step),
                    numerics.accumulate,
                    after,
                ),
                (None, None) => true,
                _ => false,
            }
        }
}

fn take_step<M, L, I, V, A, B, E>(
    before: &DenseMatrix,
    step: AssemblyStep,
    sigma: &DenseMatrix,
    block_dim: usize,
    count: usize,
    numerics: &PriorNumerics<M, L, I, V, A, B, E>,
) -> (after: Option<DenseMatrix>) where
    M: Fn(&DenseMatrix, &Vec<Scalar>) -> Option<Moments>,
    L: Fn(&DenseMatrix) -> Option<Scalar>,
    I: Fn(Scalar, Scalar, Scalar) -> Scalar,
    V: Fn(&DenseMatrix) -> Option<DenseMatrix>,
    A: Fn(Scalar, Scalar, i128) -> Scalar,
    B: Fn(Scalar, Scalar) -> Scalar,
    E: Fn(&DenseMatrix, &Vec<Scalar>) -> Vec<Scalar>,

    requires
        numerics.callable(),
        is_divided(*sigma, block_dim, count),
        is_step_among(step, count as int),
        before.is_square(sigma.rows as int),
    ensures
        is_step(*before, step, *sigma, block_dim, *numerics, after),
        after matches Some(sum) ==> sum.is_square(sigma.rows as int),
{
    proof {
        lemma_part_sizes(*sigma, block_dim, count);
    }
    let places = match step {
        AssemblyStep::Pair { i, j } => list_pair(i, j, block_dim, Ghost(count as int)),
        AssemblyStep::Node { block, factor } => list_block(block, block_dim, Ghost(count as int)),
    };
    let factor: i128 = match step {
        AssemblyStep::Pair { i, j } => 1,
        AssemblyStep::Node { block, factor } => factor,
    };
    assert(places@ == step_places(step, block_dim as int));
    let part = sigma.part(&places);
    let inverse = (numerics.inverse)(&part);
    let ghost answer = inverse;
    let after = match inverse {
        Some(inverse) => Some(before.plus_at(&places, &inverse, factor, &numerics.accumulate)),
        None => None,
    };
    assert(call_ensures(numerics.inverse, (&part,), answer));
    after
}

/// `sums` are the running sums of the steps, from zero on, up to the last one or to the
/// first that fails; `total` is the sum of all steps, if none fails.
pub open spec fn is_assembly<M, L, I, V, A, B, E>(
    steps: Seq<AssemblyStep>,
    sigma: DenseMatrix,
    block_dim: usize,
    n: int,
    numerics: PriorNumerics<M, L, I, V, A, B, E>,
    sums: Seq<DenseMatrix>,
    total: Option<DenseMatrix>,
) -> bool where
    M: Fn(&DenseMatrix, &Vec<Scalar>) -> Option<Moments>,
    L: Fn(&DenseMatrix) -> Option<Scalar>,
    I: Fn(Scalar, Scalar, Scalar) -> Scalar,
    V: Fn(&DenseMatrix) -> Option<DenseMatrix>,
    A: Fn(Scalar, Scalar, i128) -> Scalar,
    B: Fn(Scalar, Scalar) -> Scalar,
    E: Fn(&DenseMatrix, &Vec<Scalar>) -> Vec<Scalar>,
{
    &&& 1 <= sums.len() <= steps.len() + 1
    &&& sums[0].is_zero(n)
    &&& forall|k: int|
        0 <= k < sums.len() - 1 ==> is_step(
            #[trigger] sums[k],
            steps[k],
            sigma,
            block_dim,
            numerics,
            Some(sums[k + 1]),
        )
    &&& match total {
        Some(total) => sums.len() == steps.len() + 1 && total == sums.last(),
        None => sums.len() <= steps.len() && is_step(
            sums.last(),
            steps[sums.len() - 1],
            sigma,
            block_dim,
            numerics,
            None,
        ),
    }
}

fn assemble<M, L, I, V, A, B, E>(
    steps: &Vec<AssemblyStep>,
    sigma: &DenseMatrix,
    block_dim: usize,
    count: usize,
    numerics: &PriorNumerics<M, L, I, V, A, B, E>,
) -> (found: (Option<DenseMatrix>, Ghost<Seq<DenseMatrix>>)) where
    M: Fn(&DenseMatrix, &Vec<Scalar>) -> Option<Moments>,
    L: Fn(&DenseMatrix) -> Option<Scalar>,
    I: Fn(Scalar, Scalar, Scalar) -> Scalar,
    V: Fn(&DenseMatrix) -> Option<DenseMatrix>,
    A: Fn(Scalar, Scalar, i128) -> Scalar,
    B: Fn(Scalar, Scalar) -> Scalar,
    E: Fn(&DenseMatrix, &Vec<Scalar>) -> Vec<Scalar>,

    requires
        numerics.callable(),
        is_divided(*sigma, block_dim, count),
        forall|k: int| 0 <= k < steps.len() ==> is_step_among(#[trigger] steps[k], count as int),
    ensures
        is_assembly(
            steps@,
            *sigma,
            block_dim,
            sigma.rows as int,
            *numerics,
            found.1@,
            found.0,
        ),
        found.0 matches Some(total) ==> total.is_square(sigma.rows as int),
{
    let ghost n = sigma.rows;
    let mut sum = DenseMatrix::zero(sigma.rows);
    let ghost mut sums = seq![sum];
    let mut k: usize = 0;
    while k < steps.len()
        invariant
            k <= steps.len(),
            numerics.callable(),
            n == sigma.rows,
            is_divided(*sigma, block_dim, count),
            forall|m: int|
                0 <= m < steps.len() ==> is_step_among(#[trigger] steps[m], count as int),
            sums.len() == k + 1,
            sums[0].is_zero(n as int),
            sum == sums.last(),
            sum.is_square(n as int),
            forall|m: int|
                0 <= m < k ==> is_step(
                    #[trigger] sums[m],
                    steps[m],
                    *sigma,
                    block_dim,
                    *numerics,
                    Some(sums[m + 1]),
                ),
        decreases steps.len() - k,
    {
        let next = take_step(&sum, steps[k], sigma, block_dim, count, numerics);
        assert(is_step(sum, steps[k as int], *sigma, block_dim, *numerics, next));
        match next {
            Some(next) => {
                proof {
                    sums = sums.push(next);
                }
                sum = next;
                k += 1;
            },
            None => {
                return (None, Ghost(sums));
            },
        }
    }
    (Some(sum), Ghost(sums))
}

/// The joint information of every edge.
pub open spec fn pair_steps(edges: Seq<(usize, usize)>) -> Seq<AssemblyStep> {
    edges.map_values(|edge: (usize, usize)| AssemblyStep::Pair { i: edge.0, j: edge.1 })
}

/// Where `degree` edges meet at one of the first `n` blocks, its marginal information is
/// counted `degree - 1` times too often.
pub open spec fn excess_steps(edges: Seq<(usize, usize)>, n: nat) -> Seq<AssemblyStep>
    decreases n,
{
    if n == 0 {
        Seq::empty()
    } else {
        let before = excess_steps(edges, (n - 1) as nat);
        let degree = degree_of(edges, n - 1);
        if degree > 1 {
            before.push(
                AssemblyStep::Node { block: (n - 1) as usize, factor: -(degree - 1) as i128 },
            )
        } else {
            before
        }
    }
}

/// The steps that make up the information matrix of a tree: the joint information of every
/// edge, less the marginal information of the blocks that they share.
pub open spec fn tree_steps(edges: Seq<(usize, usize)>, count: nat) -> Seq<AssemblyStep> {
    pair_steps(edges) + excess_steps(edges, count)
}

fn list_tree_steps(edges: &Vec<(usize, usize)>, degree: &Vec<usize>) -> (steps: Vec<AssemblyStep>)
    requires
        forall|x: int| 0 <= x < degree.len() ==> #[trigger] degree[x] == degree_of(edges@, x),
        forall|k: int|
            0 <= k < edges.len() ==> (#[trigger] edges[k]).0 < edges[k].1 && edges[k].1
                < degree.len(),
    ensures
        steps@ == tree_steps(edges@, degree.len() as nat),
        forall|k: int|
            0 <= k < steps.len() ==> is_step_among(#[trigger] steps[k], degree.len() as int),
{
    let mut steps: Vec<AssemblyStep> = Vec::new();
    let mut k: usize = 0;
    while k < edges.len()
        invariant
            k <= edges.len(),
            steps@ == pair_steps(edges@).take(k as int),
            forall|m: int|
                0 <= m < edges.len() ==> (#[trigger] edges[m]).0 < edges[m].1 && edges[m].1
                    < degree.len(),
            forall|m: int|
                0 <= m < steps.len() ==> is_step_among(#[trigger] steps[m], degree.len() as int),
        decreases edges.len() - k,
    {
        steps.push(AssemblyStep::Pair { i: edges[k].0, j: edges[k].1 });
        k += 1;
        assert(steps@ =~= pair_steps(edges@).take(k as int));
    }
    assert(pair_steps(edges@).take(edges.len() as int) =~= pair_steps(edges@));
    assert(steps@ =~= pair_steps(edges@) + excess_steps(edges@, 0));
    let mut block: usize = 0;
    while block < degree.len()
        invariant
            block <= degree.len(),
            forall|x: int| 0 <= x < degree.len() ==> #[trigger] degree[x] == degree_of(edges@, x),
            steps@ == pair_steps(edges@) + excess_steps(edges@, block as nat),
            forall|m: int|
                0 <= m < steps.len() ==> is_step_among(#[trigger] steps[m], degree.len() as int),
        decreases degree.len() - block,
    {
        if degree[block] > 1 {
            let factor: i128 = -(degree[block] as i128 - 1);
            steps.push(AssemblyStep::Node { block, factor });
        }
        block += 1;
        assert(steps@ =~= pair_steps(edges@) + excess_steps(edges@, block as nat));
    }
    steps
}

/// `form` is the information form that the steps add up to, if none fails: their sum, made
/// symmetric, with the mean that was there.
pub open spec fn is_built<M, L, I, V, A, B, E>(
    steps: Seq<AssemblyStep>,
    moments: Moments,
    block_dim: usize,
    n: int,
    numerics: PriorNumerics<M, L, I, V, A, B, E>,
    form: Option<InformationForm>,
) -> bool where
    M: Fn(&DenseMatrix, &Vec<Scalar>) -> Option<Moments>,
    L: Fn(&DenseMatrix) -> Option<Scalar>,
    I: Fn(Scalar, Scalar, Scalar) -> Scalar,
    V: Fn(&DenseMatrix) -> Option<DenseMatrix>,
    A: Fn(Scalar, Scalar, i128) -> Scalar,
    B: Fn(Scalar, Scalar) -> Scalar,
    E: Fn(&DenseMatrix, &Vec<Scalar>) -> Vec<Scalar>,
{
    exists|sums: Seq<DenseMatrix>, total: Option<DenseMatrix>|
        {
            &&& #[trigger] is_assembly(
                steps,
                moments.sigma,
                block_dim,
                n,
                numerics,
                sums,
                total,
            )
            &&& match (total, form) {
                (Some(total), Some(form)) => is_balanced(total, numerics.balance, form.lambda)
                    && call_ensures(numerics.apply, (&form.lambda, &moments.mu), form.eta),
                (None, None) => true,
                _ => false,
            }
        }
}

fn build<M, L, I, V, A, B, E>(
    steps: &Vec<AssemblyStep>,
    moments: &Moments,
    block_dim: usize,
    count: usize,
    numerics: &PriorNumerics<M, L, I, V, A, B, E>,
) -> (form: Option<InformationForm>) where
    M: Fn(&DenseMatrix, &Vec<Scalar>) -> Option<Moments>,
    L: Fn(&DenseMatrix) -> Option<Scalar>,
    I: Fn(Scalar, Scalar, Scalar) -> Scalar,
    V: Fn(&DenseMatrix) -> Option<DenseMatrix>,
    A: Fn(Scalar, Scalar, i128) -> Scalar,
    B: Fn(Scalar, Scalar) -> Scalar,
    E: Fn(&DenseMatrix, &Vec<Scalar>) -> Vec<Scalar>,

    requires
        numerics.callable(),
        is_divided(moments.sigma, block_dim, count),
        forall|k: int| 0 <= k < steps.len() ==> is_step_among(#[trigger] steps[k], count as int),
    ensures
        is_built(steps@, *moments, block_dim, moments.sigma.rows as int, *numerics, form),
{
    let (total, sums) = assemble(steps, &moments.sigma, block_dim, count, numerics);
    match total {
        Some(total) => {
            let lambda = total.balanced(&numerics.balance);
            let eta = (numerics.apply)(&lambda, &moments.mu);
            Some(InformationForm { lambda, eta })
        },
        None => None,
    }
}

/// The edges connect any two of the first `count` blocks.
pub open spec fn spans(edges: Seq<(usize, usize)>, count: int) -> bool {
    forall|x: int, y: int|
        0 <= x < count && 0 <= y < count ==> #[trigger] connected(edges, x, y)
}

/// `prior` is the closest tree to a prior of at least two blocks with these moments: none
/// where a log-determinant or an inverse is missing, or where the blocks are not connected.
pub open spec fn is_tree_prior<M, L, I, V, A, B, E>(
    moments: Moments,
    block_dim: usize,
    count: usize,
    n: int,
    numerics: PriorNumerics<M, L, I, V, A, B, E>,
    logs: Option<Seq<Scalar>>,
    weights: Seq<Option<Scalar>>,
    candidates: Seq<WeightedEdge>,
    prior: Option<SparsifiedPrior>,
) -> bool where
    M: Fn(&DenseMatrix, &Vec<Scalar>) -> Option<Moments>,
    L: Fn(&DenseMatrix) -> Option<Scalar>,
    I: Fn(Scalar, Scalar, Scalar) -> Scalar,
    V: Fn(&DenseMatrix) -> Option<DenseMatrix>,
    A: Fn(Scalar, Scalar, i128) -> Scalar,
    B: Fn(Scalar, Scalar) -> Scalar,
    E: Fn(&DenseMatrix, &Vec<Scalar>) -> Vec<Scalar>,
{
    &&& is_node_logs(moments.sigma, block_dim, count, numerics, logs)
    &&& match logs {
        None => prior is None,
        Some(logs) => {
            let edges = chow_liu_edges(candidates);
            &&& is_candidates(moments.sigma, block_dim, logs, numerics, weights, candidates)
            &&& if edges.len() != count - 1 {
                prior is None
            } else {
                is_built(
                    tree_steps(edges, count as nat),
                    moments,
                    block_dim,
                    n,
                    numerics,
                    match prior {
                        Some(prior) => Some(
                            InformationForm { lambda: prior.lambda, eta: prior.eta },
                        ),
                        None => None,
                    },
                ) && (prior matches Some(prior) ==> prior.edges@ == edges && spans(
                    edges,
                    count as int,
                ))
            }
        },
    }
}

/// The shape of a prior: a square information matrix and an information vector of blocks.
pub open spec fn is_blocked(lambda: DenseMatrix, eta: Seq<Scalar>, block_dim: usize) -> bool {
    &&& block_dim > 0
    &&& lambda.columns == lambda.rows
    &&& eta.len() == lambda.rows
    &&& lambda.rows % block_dim == 0
}

/// `prior` is the tree-structured approximation of a prior. None where the shapes disagree
/// or the prior has no moments; the prior itself where it has at most one block.
pub open spec fn is_chow_liu<M, L, I, V, A, B, E>(
    lambda: DenseMatrix,
    eta: Vec<Scalar>,
    block_dim: usize,
    numerics: PriorNumerics<M, L, I, V, A, B, E>,
    moments: Option<Moments>,
    prior: Option<SparsifiedPrior>,
) -> bool where
    M: Fn(&DenseMatrix, &Vec<Scalar>) -> Option<Moments>,
    L: Fn(&DenseMatrix) -> Option<Scalar>,
    I: Fn(Scalar, Scalar, Scalar) -> Scalar,
    V: Fn(&DenseMatrix) -> Option<DenseMatrix>,
    A: Fn(Scalar, Scalar, i128) -> Scalar,
    B: Fn(Scalar, Scalar) -> Scalar,
    E: Fn(&DenseMatrix, &Vec<Scalar>) -> Vec<Scalar>,
{
    if !is_blocked(lambda, eta@, block_dim) {
        prior is None
    } else {
        &&& call_ensures(numerics.moments, (&lambda, &eta), moments)
        &&& match moments {
            None => prior is None,
            Some(moments) => {
                let count = lambda.rows / block_dim;
                if count <= 1 {
                    prior matches Some(prior) && prior.lambda.same(lambda) && prior.eta@ == eta@
                        && prior.edges.len() == 0
                } else {
                    exists|
                        logs: Option<Seq<Scalar>>,
                        weights: Seq<Option<Scalar>>,
                        candidates: Seq<WeightedEdge>,
                    | #[trigger]
                        is_tree_prior(
                            moments,
                            block_dim,
                            count,
                            lambda.rows as int,
                            numerics,
                            logs,
                            weights,
                            candidates,
                            prior,
                        )
                }
            },
        }
    }
}

/// Approximates a dense Gaussian prior, of stacked blocks of one size, by the closest
/// Gaussian whose couplings form a tree.
pub fn sparsify_chow_liu<M, L, I, V, A, B, E>(
    lambda: &DenseMatrix,
    eta: &Vec<Scalar>,
    block_dim: usize,
    numerics: &PriorNumerics<M, L, I, V, A, B, E>,
) -> (prior: Option<SparsifiedPrior>) where
    M: Fn(&DenseMatrix, &Vec<Scalar>) -> Option<Moments>,
    L: Fn(&DenseMatrix) -> Option<Scalar>,
    I: Fn(Scalar, Scalar, Scalar) -> Scalar,
    V: Fn(&DenseMatrix) -> Option<DenseMatrix>,
    A: Fn(Scalar, Scalar, i128) -> Scalar,
    B: Fn(Scalar, Scalar) -> Scalar,
    E: Fn(&DenseMatrix, &Vec<Scalar>) -> Vec<Scalar>,

    requires
        lambda.wf(),
        numerics.callable(),
    ensures
        exists|moments: Option<Moments>| #[trigger]
            is_chow_liu(*lambda, *eta, block_dim, *numerics, moments, prior),
{
    let ghost nothing: Option<Moments> = None;
    let count = match block_count(lambda.rows, lambda.columns, eta.len(), block_dim) {
        Some(count) => {
            proof {
                lemma_blocks_fill(lambda.rows as int, block_dim as int);
            }
            count
        },
        None => {
            assert(is_chow_liu(*lambda, *eta, block_dim, *numerics, nothing, None));
            return None;
        },
    };
    let found = (numerics.moments)(lambda, eta);
    let ghost whole = found;
    let moments = match found {
        Some(moments) => moments,
        None => {
            assert(is_chow_liu(*lambda, *eta, block_dim, *numerics, whole, None));
            return None;
        },
    };
    if count <= 1 {
        let prior = SparsifiedPrior {
            lambda: lambda.copy(),
            eta: copy_entries(eta),
            edges: Vec::new(),
        };
        assert(is_chow_liu(*lambda, *eta, block_dim, *numerics, whole, Some(prior)));
        return Some(prior);
    }
    let prior = sparsify_to_tree(&moments, block_dim, count, numerics);
    assert(is_chow_liu(*lambda, *eta, block_dim, *numerics, whole, prior));
    prior
}

fn sparsify_to_tree<M, L, I, V, A, B, E>(
    moments: &Moments,
    block_dim: usize,
    count: usize,
    numerics: &PriorNumerics<M, L, I, V, A, B, E>,
) -> (prior: Option<SparsifiedPrior>) where
    M: Fn(&DenseMatrix, &Vec<Scalar>) -> Option<Moments>,
    L: Fn(&DenseMatrix) -> Option<Scalar>,
    I: Fn(Scalar, Scalar, Scalar) -> Scalar,
    V: Fn(&DenseMatrix) -> Option<DenseMatrix>,
    A: Fn(Scalar, Scalar, i128) -> Scalar,
    B: Fn(Scalar, Scalar) -> Scalar,
    E: Fn(&DenseMatrix, &Vec<Scalar>) -> Vec<Scalar>,

    requires
        numerics.callable(),
        is_divided(moments.sigma, block_dim, count),
        count > 1,
    ensures
        exists|
            logs: Option<Seq<Scalar>>,
            weights: Seq<Option<Scalar>>,
            candidates: Seq<WeightedEdge>,
        | #[trigger]
            is_tree_prior(
                *moments,
                block_dim,
                count,
                moments.sigma.rows as int,
                *numerics,
                logs,
                weights,
                candidates,
                prior,
            ),
{
    let logs = match measure_nodes(&moments.sigma, block_dim, count, numerics) {
        Some(logs) => logs,
        None => {
            assert(is_tree_prior(
                *moments,
                block_dim,
                count,
                moments.sigma.rows as int,
                *numerics,
                None,
                Seq::empty(),
                Seq::empty(),
                None,
            ));
            return None;
        },
    };
    let (candidates, weights) = measure_pairs(&moments.sigma, block_dim, &logs, numerics);
    proof {
        lemma_part_sizes(moments.sigma, block_dim, count);
        let n = count * block_dim;
        assert(n * n == moments.sigma.entries.len());
        assert(2 * count <= n * n) by (nonlinear_arith)
            requires
                n == count * block_dim,
                1 < count,
                0 < block_dim,
        ;
    }
    let tree = match chow_liu_tree(count, &candidates) {
        Some(tree) => tree,
        None => {
            assert(is_tree_prior(
                *moments,
                block_dim,
                count,
                moments.sigma.rows as int,
                *numerics,
                Some(logs@),
                weights@,
                candidates@,
                None,
            ));
            return None;
        },
    };
    proof {
        assert forall|k: int| 0 <= k < tree.edges.len() implies (#[trigger] tree.edges[k]).0
            < tree.edges[k].1 && tree.edges[k].1 < count by {
            assert(candidates.len() == candidates@.len());
            chow_liu_edges_are_candidates(candidates@, k);
        }
    }
    let steps = list_tree_steps(&tree.edges, &tree.degree);
    let form = build(&steps, moments, block_dim, count, numerics);
    let prior = match form {
        Some(form) => Some(
            SparsifiedPrior { lambda: form.lambda, eta: form.eta, edges: tree.edges },
        ),
        None => None,
    };
    assert(is_tree_prior(
        *moments,
        block_dim,
        count,
        moments.sigma.rows as int,
        *numerics,
        Some(logs@),
        weights@,
        candidates@,
        prior,
    ));
    prior
}

proof fn lemma_pairs_bound(count: nat, n: int)
    requires
        count <= n,
    ensures
        pairs_of_first(count, n).len() <= count * n,
    decreases count,
{
    if count > 0 {
        lemma_pairs_bound((count - 1) as nat, n);
        assert((count - 1) * n + n == count * n) by (nonlinear_arith);
    }
}

proof fn lemma_weighted_bound(
    pairs: Seq<(usize, usize)>,
    weights: Seq<Option<Scalar>>,
    n: nat,
)
    ensures
        weighted(pairs, weights, n).len() <= n,
    decreases n,
{
    if n > 0 {
        lemma_weighted_bound(pairs, weights, (n - 1) as nat);
    }
}

proof fn lemma_pairs_are_ordered(count: nat, n: int, k: int)
    requires
        count <= n <= usize::MAX,
        0 <= k < pairs_of_first(count, n).len(),
    ensures
        pairs_of_first(count, n)[k].0 < pairs_of_first(count, n)[k].1 < n,
    decreases count,
{
    let shorter = pairs_of_first((count - 1) as nat, n);
    if k < shorter.len() {
        lemma_pairs_are_ordered((count - 1) as nat, n, k);
    } else {
        assert(pairs_of_first(count, n)[k] == pairs_from(count - 1, n)[k - shorter.len()]);
    }
}

proof fn lemma_weighted_are_pairs(
    pairs: Seq<(usize, usize)>,
    weights: Seq<Option<Scalar>>,
    n: nat,
    m: int,
) -> (k: int)
    requires
        n <= pairs.len(),
        0 <= m < weighted(pairs, weights, n).len(),
    ensures
        0 <= k < n,
        (weighted(pairs, weights, n)[m].i, weighted(pairs, weights, n)[m].j) == pairs[k],
    decreases n,
{
    let before = weighted(pairs, weights, (n - 1) as nat);
    if m < before.len() {
        lemma_weighted_are_pairs(pairs, weights, (n - 1) as nat, m)
    } else {
        n - 1
    }
}

/// The edges of a prior of two blocks or more: those of a Chow-Liu tree, each a pair of
/// blocks in order.
proof fn lemma_tree_edges<M, L, I, V, A, B, E>(
    moments: Moments,
    block_dim: usize,
    count: usize,
    n: int,
    numerics: PriorNumerics<M, L, I, V, A, B, E>,
    logs: Option<Seq<Scalar>>,
    weights: Seq<Option<Scalar>>,
    candidates: Seq<WeightedEdge>,
    prior: SparsifiedPrior,
) where
    M: Fn(&DenseMatrix, &Vec<Scalar>) -> Option<Moments>,
    L: Fn(&DenseMatrix) -> Option<Scalar>,
    I: Fn(Scalar, Scalar, Scalar) -> Scalar,
    V: Fn(&DenseMatrix) -> Option<DenseMatrix>,
    A: Fn(Scalar, Scalar, i128) -> Scalar,
    B: Fn(Scalar, Scalar) -> Scalar,
    E: Fn(&DenseMatrix, &Vec<Scalar>) -> Vec<Scalar>,

    requires
        count * count <= usize::MAX,
        is_tree_prior(
            moments,
            block_dim,
            count,
            n,
            numerics,
            logs,
            weights,
            candidates,
            Some(prior),
        ),
    ensures
        candidates.len() <= usize::MAX,
        prior.edges@ == chow_liu_edges(candidates),
        prior.edges.len() == count - 1,
        forall|k: int|
            0 <= k < prior.edges.len() ==> (#[trigger] prior.edges[k]).0 < prior.edges[k].1
                && prior.edges[k].1 < count,
{
    let pairs = pairs_of_first(logs->0.len(), logs->0.len() as int);
    lemma_pairs_bound(count as nat, count as int);
    lemma_weighted_bound(pairs, weights, pairs.len());
    assert(candidates.len() <= usize::MAX);
    assert forall|k: int| 0 <= k < prior.edges.len() implies (#[trigger] prior.edges[k]).0
        < prior.edges[k].1 && prior.edges[k].1 < count by {
        chow_liu_edges_are_candidates(candidates, k);
        let m = choose|m: int|
            0 <= m < candidates.len() && is_edge_of(prior.edges@[k], #[trigger] candidates[m]);
        let at = lemma_weighted_are_pairs(pairs, weights, pairs.len(), m);
        lemma_pairs_are_ordered(count as nat, count as int, at);
    }
}

proof fn lemma_block_count(lambda: DenseMatrix, block_dim: usize)
    requires
        lambda.wf(),
        lambda.rows > 0,
        lambda.columns == lambda.rows,
        block_dim > 0,
        lambda.rows % block_dim == 0,
    ensures
        1 <= lambda.rows / block_dim <= lambda.rows,
        lambda.rows / block_dim * block_dim == lambda.rows,
        (lambda.rows / block_dim) * (lambda.rows / block_dim) <= usize::MAX,
{
    let rows = lambda.rows as int;
    let count = rows / (block_dim as int);
    lemma_blocks_fill(rows, block_dim as int);
    assert(1 <= count <= rows) by (nonlinear_arith)
        requires
            rows > 0,
            block_dim > 0,
            count * block_dim == rows,
    ;
    assert(count * count <= rows * rows) by (nonlinear_arith)
        requires
            1 <= count <= rows,
    ;
    assert(rows * rows == lambda.entries.len());
}

/// A prior of `n` blocks keeps `n - 1` couplings, and they form a spanning tree: each links
/// two blocks in order, none links blocks that the couplings before it connect already, so
/// that no two are the same, and all together they connect any two blocks.
pub proof fn tree_priors_are_trees<M, L, I, V, A, B, E>(
    lambda: DenseMatrix,
    eta: Vec<Scalar>,
    block_dim: usize,
    numerics: PriorNumerics<M, L, I, V, A, B, E>,
    moments: Option<Moments>,
    prior: SparsifiedPrior,
) where
    M: Fn(&DenseMatrix, &Vec<Scalar>) -> Option<Moments>,
    L: Fn(&DenseMatrix) -> Option<Scalar>,
    I: Fn(Scalar, Scalar, Scalar) -> Scalar,
    V: Fn(&DenseMatrix) -> Option<DenseMatrix>,
    A: Fn(Scalar, Scalar, i128) -> Scalar,
    B: Fn(Scalar, Scalar) -> Scalar,
    E: Fn(&DenseMatrix, &Vec<Scalar>) -> Vec<Scalar>,

    requires
        lambda.wf(),
        lambda.rows > 0,
        is_chow_liu(lambda, eta, block_dim, numerics, moments, Some(prior)),
    ensures
        prior.edges.len() == lambda.rows / block_dim - 1,
        forall|k: int|
            0 <= k < prior.edges.len() ==> (#[trigger] prior.edges[k]).0 < prior.edges[k].1
                && prior.edges[k].1 < lambda.rows / block_dim,
        forall|k: int|
            0 <= k < prior.edges.len() ==> !connected(
                prior.edges@.take(k),
                (#[trigger] prior.edges[k]).0 as int,
                prior.edges[k].1 as int,
            ),
        forall|i: int, j: int|
            0 <= i < j < prior.edges.len() ==> prior.edges[i] != prior.edges[j],
        lambda.rows / block_dim > 1 ==> spans(prior.edges@, (lambda.rows / block_dim) as int),
{
    lemma_block_count(lambda, block_dim);
    let count = lambda.rows / block_dim;
    if count > 1 {
        let (logs, weights, candidates) = choose|
            logs: Option<Seq<Scalar>>,
            weights: Seq<Option<Scalar>>,
            candidates: Seq<WeightedEdge>,
        | #[trigger]
            is_tree_prior(
                moments->0,
                block_dim,
                count,
                lambda.rows as int,
                numerics,
                logs,
                weights,
                candidates,
                Some(prior),
            );
        lemma_tree_edges(
            moments->0,
            block_dim,
            count,
            lambda.rows as int,
            numerics,
            logs,
            weights,
            candidates,
            prior,
        );
        assert forall|k: int| 0 <= k < prior.edges.len() implies !connected(
            prior.edges@.take(k),
            (#[trigger] prior.edges[k]).0 as int,
            prior.edges[k].1 as int,
        ) by {
            chow_liu_edges_have_no_cycle(candidates, k);
        }
        assert forall|i: int, j: int| 0 <= i < j < prior.edges.len() implies prior.edges[i]
            != prior.edges[j] by {
            let before = prior.edges@.take(j);
            connected_by_an_edge(before, i);
            assert(before[i] == prior.edges[i]);
            assert(!connected(
                prior.edges@.take(j),
                prior.edges[j].0 as int,
                prior.edges[j].1 as int,
            ));
        }
    }
}

/// The block that a row or column belongs to.
pub open spec fn block_of(row: int, block_dim: int) -> int {
    row / block_dim
}

/// Whether two different blocks are coupled by one of the edges.
pub open spec fn is_coupled(edges: Seq<(usize, usize)>, x: int, y: int) -> bool {
    exists|k: int|
        0 <= k < edges.len() && ((#[trigger] edges[k] == (x as usize, y as usize)) || edges[k] == (
            y as usize,
            x as usize,
        ))
}

/// A step adds to the entries of two different blocks.
spec fn touches(step: AssemblyStep, x: int, y: int) -> bool {
    step matches AssemblyStep::Pair { i, j } && ((i == x && j == y) || (i == y && j == x))
}

proof fn lemma_place_has_block(row: int, block: int, block_dim: int, count: int)
    requires
        0 <= block < count,
        0 < block_dim,
        count * block_dim <= usize::MAX,
        0 <= row <= usize::MAX,
        block_places(block, block_dim).contains(row as usize),
    ensures
        block_of(row, block_dim) == block,
{
    lemma_block_places(block, block_dim, count);
    let k = choose|k: int|
        0 <= k < block_places(block, block_dim).len() && block_places(block, block_dim)[k]
            == row as usize;
    assert(row == block * block_dim + k);
    vstd::arithmetic::div_mod::lemma_fundamental_div_mod_converse(row, block_dim, block, k);
}

/// A step that does not touch two different blocks leaves their entries as they are.
proof fn lemma_step_leaves<M, L, I, V, A, B, E>(
    before: DenseMatrix,
    step: AssemblyStep,
    sigma: DenseMatrix,
    block_dim: usize,
    count: usize,
    numerics: PriorNumerics<M, L, I, V, A, B, E>,
    after: DenseMatrix,
    row: int,
    column: int,
) where
    M: Fn(&DenseMatrix, &Vec<Scalar>) -> Option<Moments>,
    L: Fn(&DenseMatrix) -> Option<Scalar>,
    I: Fn(Scalar, Scalar, Scalar) -> Scalar,
    V: Fn(&DenseMatrix) -> Option<DenseMatrix>,
    A: Fn(Scalar, Scalar, i128) -> Scalar,
    B: Fn(Scalar, Scalar) -> Scalar,
    E: Fn(&DenseMatrix, &Vec<Scalar>) -> Vec<Scalar>,

    requires
        is_step(before, step, sigma, block_dim, numerics, Some(after)),
        is_step_among(step, count as int),
        block_dim > 0,
        count * block_dim <= usize::MAX,
        before.rows == count * block_dim,
        0 <= row < before.rows,
        0 <= column < before.rows,
        block_of(row, block_dim as int) != block_of(column, block_dim as int),
        !touches(step, block_of(row, block_dim as int), block_of(column, block_dim as int)),
    ensures
        after.rows == before.rows,
        after.at(row, column) == before.at(row, column),
{
    let b = block_dim as int;
    let places = step_places(step, b);
    if places.contains(row as usize) && places.contains(column as usize) {
        match step {
            AssemblyStep::Pair { i, j } => {
                let first = block_places(i as int, b);
                let second = block_places(j as int, b);
                assert forall|at: int|
                    0 <= at < before.rows && places.contains(at as usize) implies #[trigger] block_of(
                    at,
                    b,
                ) == i || block_of(at, b) == j by {
                    let k = choose|k: int| 0 <= k < places.len() && places[k] == at as usize;
                    if k < first.len() {
                        assert(first[k] == at as usize);
                        lemma_place_has_block(at, i as int, b, count as int);
                    } else {
                        assert(second[k - first.len()] == at as usize);
                        lemma_place_has_block(at, j as int, b, count as int);
                    }
                }
                assert(block_of(row, b) == i || block_of(row, b) == j);
                assert(block_of(column, b) == i || block_of(column, b) == j);
            },
            AssemblyStep::Node { block, factor } => {
                lemma_place_has_block(row, block as int, b, count as int);
                lemma_place_has_block(column, block as int, b, count as int);
            },
        }
    }
}

/// What no step touches stays zero.
proof fn lemma_untouched_is_zero<M, L, I, V, A, B, E>(
    steps: Seq<AssemblyStep>,
    sigma: DenseMatrix,
    block_dim: usize,
    count: usize,
    numerics: PriorNumerics<M, L, I, V, A, B, E>,
    sums: Seq<DenseMatrix>,
    total: Option<DenseMatrix>,
    k: int,
    row: int,
    column: int,
) where
    M: Fn(&DenseMatrix, &Vec<Scalar>) -> Option<Moments>,
    L: Fn(&DenseMatrix) -> Option<Scalar>,
    I: Fn(Scalar, Scalar, Scalar) -> Scalar,
    V: Fn(&DenseMatrix) -> Option<DenseMatrix>,
    A: Fn(Scalar, Scalar, i128) -> Scalar,
    B: Fn(Scalar, Scalar) -> Scalar,
    E: Fn(&DenseMatrix, &Vec<Scalar>) -> Vec<Scalar>,

    requires
        block_dim > 0,
        count * block_dim <= usize::MAX,
        is_assembly(steps, sigma, block_dim, count * block_dim, numerics, sums, total),
        forall|m: int| 0 <= m < steps.len() ==> is_step_among(#[trigger] steps[m], count as int),
        0 <= row < count * block_dim,
        0 <= column < count * block_dim,
        block_of(row, block_dim as int) != block_of(column, block_dim as int),
        forall|m: int|
            0 <= m < steps.len() ==> !touches(
                #[trigger] steps[m],
                block_of(row, block_dim as int),
                block_of(column, block_dim as int),
            ),
        0 <= k < sums.len(),
        k <= steps.len(),
    ensures
        sums[k].rows == count * block_dim,
        sums[k].at(row, column) == Scalar::zero(),
    decreases k,
{
    if k > 0 {
        lemma_untouched_is_zero(
            steps,
            sigma,
            block_dim,
            count,
            numerics,
            sums,
            total,
            k - 1,
            row,
            column,
        );
        assert(is_step_among(steps[k - 1], count as int));
        assert(is_step(
            sums[k - 1],
            steps[k - 1],
            sigma,
            block_dim,
            numerics,
            Some(sums[k - 1 + 1]),
        ));
        lemma_step_leaves(
            sums[k - 1],
            steps[k - 1],
            sigma,
            block_dim,
            count,
            numerics,
            sums[k],
            row,
            column,
        );
    }
}

/// The mean of zero and zero is zero.
pub open spec fn balances_zero<M, L, I, V, A, B, E>(
    numerics: PriorNumerics<M, L, I, V, A, B, E>,
) -> bool where
    M: Fn(&DenseMatrix, &Vec<Scalar>) -> Option<Moments>,
    L: Fn(&DenseMatrix) -> Option<Scalar>,
    I: Fn(Scalar, Scalar, Scalar) -> Scalar,
    V: Fn(&DenseMatrix) -> Option<DenseMatrix>,
    A: Fn(Scalar, Scalar, i128) -> Scalar,
    B: Fn(Scalar, Scalar) -> Scalar,
    E: Fn(&DenseMatrix, &Vec<Scalar>) -> Vec<Scalar>,
 {
    forall|mean: Scalar| #[trigger]
        call_ensures(numerics.balance, (Scalar::zero(), Scalar::zero()), mean) ==> mean
            == Scalar::zero()
}

/// Steps that do not touch two different blocks build a form in which they are not coupled.
proof fn lemma_uncoupled_is_zero<M, L, I, V, A, B, E>(
    steps: Seq<AssemblyStep>,
    moments: Moments,
    block_dim: usize,
    count: usize,
    numerics: PriorNumerics<M, L, I, V, A, B, E>,
    form: InformationForm,
    row: int,
    column: int,
) where
    M: Fn(&DenseMatrix, &Vec<Scalar>) -> Option<Moments>,
    L: Fn(&DenseMatrix) -> Option<Scalar>,
    I: Fn(Scalar, Scalar, Scalar) -> Scalar,
    V: Fn(&DenseMatrix) -> Option<DenseMatrix>,
    A: Fn(Scalar, Scalar, i128) -> Scalar,
    B: Fn(Scalar, Scalar) -> Scalar,
    E: Fn(&DenseMatrix, &Vec<Scalar>) -> Vec<Scalar>,

    requires
        balances_zero(numerics),
        block_dim > 0,
        count * block_dim <= usize::MAX,
        is_built(steps, moments, block_dim, count * block_dim, numerics, Some(form)),
        forall|m: int| 0 <= m < steps.len() ==> is_step_among(#[trigger] steps[m], count as int),
        0 <= row < count * block_dim,
        0 <= column < count * block_dim,
        block_of(row, block_dim as int) != block_of(column, block_dim as int),
        forall|m: int|
            0 <= m < steps.len() ==> !touches(
                #[trigger] steps[m],
                block_of(row, block_dim as int),
                block_of(column, block_dim as int),
            ),
    ensures
        form.lambda.at(row, column) == Scalar::zero(),
{
    let (sums, total) = choose|sums: Seq<DenseMatrix>, total: Option<DenseMatrix>|
        {
            &&& #[trigger] is_assembly(
                steps,
                moments.sigma,
                block_dim,
                count * block_dim,
                numerics,
                sums,
                total,
            )
            &&& match (total, Some(form)) {
                (Some(total), Some(form)) => is_balanced(total, numerics.balance, form.lambda)
                    && call_ensures(numerics.apply, (&form.lambda, &moments.mu), form.eta),
                (None, None) => true,
                _ => false,
            }
        };
    lemma_untouched_is_zero(
        steps,
        moments.sigma,
        block_dim,
        count,
        numerics,
        sums,
        total,
        steps.len() as int,
        row,
        column,
    );
    lemma_untouched_is_zero(
        steps,
        moments.sigma,
        block_dim,
        count,
        numerics,
        sums,
        total,
        steps.len() as int,
        column,
        row,
    );
    let sum = total->0;
    assert(sum == sums[steps.len() as int]);
    assert(call_ensures(
        numerics.balance,
        (sum.at(row, column), sum.at(column, row)),
        form.lambda.at(row, column),
    ));
}

proof fn lemma_tree_steps(edges: Seq<(usize, usize)>, count: nat, n: nat, m: int)
    requires
        n <= count <= usize::MAX,
        forall|k: int|
            0 <= k < edges.len() ==> (#[trigger] edges[k]).0 < edges[k].1 && edges[k].1 < count,
        0 <= m < tree_steps(edges, n).len(),
    ensures
        is_step_among(tree_steps(edges, n)[m], count as int),
        tree_steps(edges, n)[m] matches AssemblyStep::Pair { i, j } ==> exists|k: int|
            0 <= k < edges.len() && #[trigger] edges[k] == (i, j),
    decreases n,
{
    let pairs = pair_steps(edges);
    let steps = tree_steps(edges, n);
    if m < pairs.len() {
        assert(steps[m] == pairs[m]);
        assert(edges[m].0 < edges[m].1);
    } else {
        let before = excess_steps(edges, (n - 1) as nat);
        if m - pairs.len() < before.len() {
            lemma_tree_steps(edges, count, (n - 1) as nat, m);
            assert(tree_steps(edges, (n - 1) as nat)[m] == before[m - pairs.len()]);
            assert(steps[m] == before[m - pairs.len()]);
        }
    }
}

/// Couplings off the tree are dropped: blocks that no edge of a sparsified prior links have
/// a zero information between them, provided that the mean of two zeros is zero.
pub proof fn off_tree_blocks_are_zero<M, L, I, V, A, B, E>(
    lambda: DenseMatrix,
    eta: Vec<Scalar>,
    block_dim: usize,
    numerics: PriorNumerics<M, L, I, V, A, B, E>,
    moments: Option<Moments>,
    prior: SparsifiedPrior,
    row: int,
    column: int,
) where
    M: Fn(&DenseMatrix, &Vec<Scalar>) -> Option<Moments>,
    L: Fn(&DenseMatrix) -> Option<Scalar>,
    I: Fn(Scalar, Scalar, Scalar) -> Scalar,
    V: Fn(&DenseMatrix) -> Option<DenseMatrix>,
    A: Fn(Scalar, Scalar, i128) -> Scalar,
    B: Fn(Scalar, Scalar) -> Scalar,
    E: Fn(&DenseMatrix, &Vec<Scalar>) -> Vec<Scalar>,

    requires
        lambda.wf(),
        balances_zero(numerics),
        is_chow_liu(lambda, eta, block_dim, numerics, moments, Some(prior)),
        0 <= row < lambda.rows,
        0 <= column < lambda.rows,
        block_of(row, block_dim as int) != block_of(column, block_dim as int),
        !is_coupled(
            prior.edges@,
            block_of(row, block_dim as int),
            block_of(column, block_dim as int),
        ),
    ensures
        prior.lambda.at(row, column) == Scalar::zero(),
{
    lemma_block_count(lambda, block_dim);
    let count = lambda.rows / block_dim;
    let b = block_dim as int;
    let x = block_of(row, b);
    let y = block_of(column, b);
    lemma_rows_have_blocks(row, b, count as int);
    lemma_rows_have_blocks(column, b, count as int);
    assert(count > 1);
    let (logs, weights, candidates) = choose|
        logs: Option<Seq<Scalar>>,
        weights: Seq<Option<Scalar>>,
        candidates: Seq<WeightedEdge>,
    | #[trigger]
        is_tree_prior(
            moments->0,
            block_dim,
            count,
            lambda.rows as int,
            numerics,
            logs,
            weights,
            candidates,
            Some(prior),
        );
    lemma_tree_edges(
        moments->0,
        block_dim,
        count,
        lambda.rows as int,
        numerics,
        logs,
        weights,
        candidates,
        prior,
    );
    let steps = tree_steps(prior.edges@, count as nat);
    assert forall|m: int| 0 <= m < steps.len() implies is_step_among(
        #[trigger] steps[m],
        count as int,
    ) && !touches(steps[m], x, y) by {
        lemma_tree_steps(prior.edges@, count as nat, count as nat, m);
        if let AssemblyStep::Pair { i, j } = steps[m] {
            let k = choose|k: int|
                0 <= k < prior.edges.len() && #[trigger] prior.edges@[k] == (i, j);
            assert(prior.edges@[k] == (i, j));
        }
    }
    lemma_uncoupled_is_zero(
        steps,
        moments->0,
        block_dim,
        count,
        numerics,
        InformationForm { lambda: prior.lambda, eta: prior.eta },
        row,
        column,
    );
}

proof fn lemma_rows_have_blocks(row: int, block_dim: int, count: int)
    requires
        0 < block_dim,
        0 <= row < count * block_dim,
    ensures
        0 <= block_of(row, block_dim) < count,
{
    let block = row / block_dim;
    vstd::arithmetic::div_mod::lemma_fundamental_div_mod(row, block_dim);
    assert(0 <= block < count) by (nonlinear_arith)
        requires
            0 < block_dim,
            0 <= row < count * block_dim,
            row == block_dim * block + row % block_dim,
            0 <= row % block_dim < block_dim,
    ;
}

/// Independent blocks have a zero information between them, provided that the mean of two
/// zeros is zero.
pub proof fn diagonal_priors_have_no_couplings<M, L, I, V, A, B, E>(
    lambda: DenseMatrix,
    eta: Vec<Scalar>,
    block_dim: usize,
    numerics: PriorNumerics<M, L, I, V, A, B, E>,
    moments: Option<Moments>,
    prior: SparsifiedPrior,
    row: int,
    column: int,
) where
    M: Fn(&DenseMatrix, &Vec<Scalar>) -> Option<Moments>,
    L: Fn(&DenseMatrix) -> Option<Scalar>,
    I: Fn(Scalar, Scalar, Scalar) -> Scalar,
    V: Fn(&DenseMatrix) -> Option<DenseMatrix>,
    A: Fn(Scalar, Scalar, i128) -> Scalar,
    B: Fn(Scalar, Scalar) -> Scalar,
    E: Fn(&DenseMatrix, &Vec<Scalar>) -> Vec<Scalar>,

    requires
        lambda.wf(),
        balances_zero(numerics),
        is_diagonal(lambda, eta, block_dim, numerics, moments, Some(prior)),
        0 <= row < lambda.rows,
        0 <= column < lambda.rows,
        block_of(row, block_dim as int) != block_of(column, block_dim as int),
    ensures
        prior.edges.len() == 0,
        prior.lambda.at(row, column) == Scalar::zero(),
{
    lemma_block_count(lambda, block_dim);
    let count = lambda.rows / block_dim;
    let steps = diagonal_steps(count as nat);
    assert forall|m: int| 0 <= m < steps.len() implies is_step_among(
        #[trigger] steps[m],
        count as int,
    ) by {}
    lemma_uncoupled_is_zero(
        steps,
        moments->0,
        block_dim,
        count,
        numerics,
        InformationForm { lambda: prior.lambda, eta: prior.eta },
        row,
        column,
    );
}

/// The marginal information of each of the first `n` blocks.
pub open spec fn diagonal_steps(n: nat) -> Seq<AssemblyStep> {
    Seq::new(n, |k: int| AssemblyStep::Node { block: k as usize, factor: 1 })
}

/// `prior` is the approximation of a prior by independent blocks. None where the shapes
/// disagree, or where the prior has no moments or a block no inverse.
pub open spec fn is_diagonal<M, L, I, V, A, B, E>(
    lambda: DenseMatrix,
    eta: Vec<Scalar>,
    block_dim: usize,
    numerics: PriorNumerics<M, L, I, V, A, B, E>,
    moments: Option<Moments>,
    prior: Option<SparsifiedPrior>,
) -> bool where
    M: Fn(&DenseMatrix, &Vec<Scalar>) -> Option<Moments>,
    L: Fn(&DenseMatrix) -> Option<Scalar>,
    I: Fn(Scalar, Scalar, Scalar) -> Scalar,
    V: Fn(&DenseMatrix) -> Option<DenseMatrix>,
    A: Fn(Scalar, Scalar, i128) -> Scalar,
    B: Fn(Scalar, Scalar) -> Scalar,
    E: Fn(&DenseMatrix, &Vec<Scalar>) -> Vec<Scalar>,
{
    if !is_blocked(lambda, eta@, block_dim) {
        prior is None
    } else {
        &&& call_ensures(numerics.moments, (&lambda, &eta), moments)
        &&& match moments {
            None => prior is None,
            Some(moments) => {
                &&& is_built(
                    diagonal_steps((lambda.rows / block_dim) as nat),
                    moments,
                    block_dim,
                    lambda.rows as int,
                    numerics,
                    match prior {
                        Some(prior) => Some(
                            InformationForm { lambda: prior.lambda, eta: prior.eta },
                        ),
                        None => None,
                    },
                )
                &&& prior matches Some(prior) ==> prior.edges.len() == 0
            },
        }
    }
}

/// Approximates a dense Gaussian prior by independent blocks with the same marginals.
pub fn sparsify_diagonal<M, L, I, V, A, B, E>(
    lambda: &DenseMatrix,
    eta: &Vec<Scalar>,
    block_dim: usize,
    numerics: &PriorNumerics<M, L, I, V, A, B, E>,
) -> (prior: Option<SparsifiedPrior>) where
    M: Fn(&DenseMatrix, &Vec<Scalar>) -> Option<Moments>,
    L: Fn(&DenseMatrix) -> Option<Scalar>,
    I: Fn(Scalar, Scalar, Scalar) -> Scalar,
    V: Fn(&DenseMatrix) -> Option<DenseMatrix>,
    A: Fn(Scalar, Scalar, i128) -> Scalar,
    B: Fn(Scalar, Scalar) -> Scalar,
    E: Fn(&DenseMatrix, &Vec<Scalar>) -> Vec<Scalar>,

    requires
        lambda.wf(),
        numerics.callable(),
    ensures
        exists|moments: Option<Moments>| #[trigger]
            is_diagonal(*lambda, *eta, block_dim, *numerics, moments, prior),
{
    let ghost nothing: Option<Moments> = None;
    let count = match block_count(lambda.rows, lambda.columns, eta.len(), block_dim) {
        Some(count) => {
            proof {
                lemma_blocks_fill(lambda.rows as int, block_dim as int);
            }
            count
        },
        None => {
            assert(is_diagonal(*lambda, *eta, block_dim, *numerics, nothing, None));
            return None;
        },
    };
    let found = (numerics.moments)(lambda, eta);
    let ghost whole = found;
    let moments = match found {
        Some(moments) => moments,
        None => {
            assert(is_diagonal(*lambda, *eta, block_dim, *numerics, whole, None));
            return None;
        },
    };
    let mut steps: Vec<AssemblyStep> = Vec::new();
    let mut block: usize = 0;
    while block < count
        invariant
            block <= count,
            steps@ == diagonal_steps(block as nat),
            forall|k: int|
                0 <= k < steps.len() ==> is_step_among(#[trigger] steps[k], count as int),
        decreases count - block,
    {
        steps.push(AssemblyStep::Node { block, factor: 1 });
        block += 1;
        assert(steps@ =~= diagonal_steps(block as nat));
    }
    let prior = match build(&steps, &moments, block_dim, count, numerics) {
        Some(form) => Some(
            SparsifiedPrior { lambda: form.lambda, eta: form.eta, edges: Vec::new() },
        ),
        None => None,
    };
    assert(is_diagonal(*lambda, *eta, block_dim, *numerics, whole, prior));
    prior
}

/// The arithmetic of the divergence of two Gaussians.
pub struct DivergenceNumerics<T, L, C> {
    /// The trace of the second information matrix times the covariance of the first; none
    /// where the first is not positive definite.
    pub trace: T,
    /// The log-determinant of a positive definite matrix; none for another.
    pub logdet: L,
    /// The divergence by trace, dimension and the two log-determinants.
    pub combine: C,
}

impl<T, L, C> DivergenceNumerics<T, L, C> where
    T: Fn(&DenseMatrix, &DenseMatrix) -> Option<Scalar>,
    L: Fn(&DenseMatrix) -> Option<Scalar>,
    C: Fn(Scalar, usize, Scalar, Scalar) -> Scalar,
{
    /// The functions take any argument.
    pub open spec fn callable(self) -> bool {
        &&& forall|p: DenseMatrix, q: DenseMatrix| call_requires(self.trace, (&p, &q))
        &&& forall|matrix: DenseMatrix| call_requires(self.logdet, (&matrix,))
        &&& forall|trace: Scalar, n: usize, p: Scalar, q: Scalar|
            call_requires(self.combine, (trace, n, p, q))
    }
}

/// `divergence` is that of two Gaussians, by the trace and the log-determinants; none where
/// the shapes disagree or one of those is missing.
pub open spec fn is_divergence<T, L, C>(
    p: DenseMatrix,
    q: DenseMatrix,
    numerics: DivergenceNumerics<T, L, C>,
    trace: Option<Scalar>,
    p_log: Option<Scalar>,
    q_log: Option<Scalar>,
    divergence: Option<Scalar>,
) -> bool where
    T: Fn(&DenseMatrix, &DenseMatrix) -> Option<Scalar>,
    L: Fn(&DenseMatrix) -> Option<Scalar>,
    C: Fn(Scalar, usize, Scalar, Scalar) -> Scalar,
{
    if p.columns != p.rows || q.rows != p.rows || q.columns != p.rows {
        divergence is None
    } else {
        &&& call_ensures(numerics.trace, (&p, &q), trace)
        &&& trace is Some ==> call_ensures(numerics.logdet, (&p,), p_log)
        &&& trace is Some && p_log is Some ==> call_ensures(numerics.logdet, (&q,), q_log)
        &&& match (trace, p_log, q_log) {
            (Some(trace), Some(p_log), Some(q_log)) => divergence matches Some(value)
                && call_ensures(numerics.combine, (trace, p.rows, p_log, q_log), value),
            _ => divergence is None,
        }
    }
}

/// The divergence of one Gaussian from another with the same mean, both by their
/// information matrices: how far an approximation `q` is from a prior `p`.
pub fn kl_divergence<T, L, C>(
    p_lambda: &DenseMatrix,
    q_lambda: &DenseMatrix,
    numerics: &DivergenceNumerics<T, L, C>,
) -> (divergence: Option<Scalar>) where
    T: Fn(&DenseMatrix, &DenseMatrix) -> Option<Scalar>,
    L: Fn(&DenseMatrix) -> Option<Scalar>,
    C: Fn(Scalar, usize, Scalar, Scalar) -> Scalar,

    requires
        numerics.callable(),
    ensures
        exists|trace: Option<Scalar>, p_log: Option<Scalar>, q_log: Option<Scalar>| #[trigger]
            is_divergence(*p_lambda, *q_lambda, *numerics, trace, p_log, q_log, divergence),
{
    let n: usize = p_lambda.rows;
    if p_lambda.columns != n || q_lambda.rows != n || q_lambda.columns != n {
        assert(is_divergence(*p_lambda, *q_lambda, *numerics, None, None, None, None));
        return None;
    }
    let trace = (numerics.trace)(p_lambda, q_lambda);
    let p_log = if trace.is_some() {
        (numerics.logdet)(p_lambda)
    } else {
        None
    };
    let q_log = if p_log.is_some() {
        (numerics.logdet)(q_lambda)
    } else {
        None
    };
    let divergence = match (trace, p_log, q_log) {
        (Some(trace), Some(p_log), Some(q_log)) => Some(
            (numerics.combine)(trace, n, p_log, q_log),
        ),
        _ => None,
    };
    assert(is_divergence(*p_lambda, *q_lambda, *numerics, trace, p_log, q_log, divergence));
    divergence
}

/// Every two blocks are paired once, the earlier one first, in order.
pub proof fn all_blocks_are_paired(n: int)
    requires
        0 <= n <= usize::MAX,
    ensures
        forall|a: usize, b: usize| #[trigger]
            pairs_of_first(n as nat, n).contains((a, b)) <==> a < b < n,
        forall|k: int, l: int|
            0 <= k < l < pairs_of_first(n as nat, n).len() ==> {
                let p = #[trigger] pairs_of_first(n as nat, n)[k];
                let q = #[trigger] pairs_of_first(n as nat, n)[l];
                p.0 < q.0 || (p.0 == q.0 && p.1 < q.1)
            },
{
    lemma_pairs_of_first(n as nat, n);
}

proof fn lemma_pairs_of_first(count: nat, n: int)
    requires
        count <= n <= usize::MAX,
    ensures
        forall|a: usize, b: usize| #[trigger]
            pairs_of_first(count, n).contains((a, b)) <==> a < b < n && a < count,
        forall|k: int, l: int|
            0 <= k < l < pairs_of_first(count, n).len() ==> {
                let p = #[trigger] pairs_of_first(count, n)[k];
                let q = #[trigger] pairs_of_first(count, n)[l];
                p.0 < q.0 || (p.0 == q.0 && p.1 < q.1)
            },
    decreases count,
{
    let all = pairs_of_first(count, n);
    if count > 0 {
        let m = (count - 1) as nat;
        lemma_pairs_of_first(m, n);
        let before = pairs_of_first(m, n);
        let more = pairs_from(count - 1, n);
        assert forall|a: usize, b: usize| #[trigger]
            all.contains((a, b)) <==> a < b < n && a < count by {
            if all.contains((a, b)) {
                let k = all.index_of((a, b));
                if k < before.len() {
                    assert(before[k] == (a, b));
                    assert(before.contains((a, b)));
                } else {
                    assert(more[k - before.len()] == (a, b));
                }
            }
            if a < b < n && a < count {
                if a < m {
                    assert(before.contains((a, b)));
                    assert(all[before.index_of((a, b))] == (a, b));
                } else {
                    assert(more[b - a - 1] == (a, b));
                    assert(all[before.len() + (b - a - 1)] == (a, b));
                }
            }
        }
        assert forall|k: int, l: int| 0 <= k < l < all.len() implies ({
            let p = #[trigger] all[k];
            let q = #[trigger] all[l];
            p.0 < q.0 || (p.0 == q.0 && p.1 < q.1)
        }) by {
            if l < before.len() {
                assert(all[k] == before[k] && all[l] == before[l]);
            } else {
                assert(all[l] == more[l - before.len()]);
                if k < before.len() {
                    assert(all[k] == before[k]);
                    assert(before.contains((before[k].0, before[k].1)));
                } else {
                    assert(all[k] == more[k - before.len()]);
                }
            }
        }
    }
}

/// The candidates of a tree are the pairs whose weight is known, in order.
pub proof fn candidates_are_the_weighted_pairs(
    pairs: Seq<(usize, usize)>,
    weights: Seq<Option<Scalar>>,
    n: nat,
) -> (at: Seq<int>)
    ensures
        lists_kept(at, n, |k: int| weights[k] is Some),
        weighted(pairs, weights, n).len() == at.len(),
        forall|k: int|
            0 <= k < at.len() ==> ({
                let found = weighted(pairs, weights, n)[k];
                let m = #[trigger] at[k];
                &&& weights[m] == Some(found.weight)
                &&& pairs[m] == (found.i, found.j)
            }),
    decreases n,
{
    let kept = |k: int| weights[k] is Some;
    if n == 0 {
        Seq::empty()
    } else {
        let m = (n - 1) as nat;
        let before = candidates_are_the_weighted_pairs(pairs, weights, m);
        crate::sequences::lemma_lists_one_more(before, m, kept);
        if kept(m as int) {
            let at = before.push(m as int);
            assert(at.last() == m);
            at
        } else {
            before
        }
    }
}

/// How a tree is put together: every edge adds the information of its pair once, and every
/// block that lies on several edges takes its own off again, once less than there are.
pub proof fn shared_blocks_are_taken_off_again(edges: Seq<(usize, usize)>, count: nat) -> (at: Seq<
    int,
>)
    requires
        count <= usize::MAX,
        2 * edges.len() <= i128::MAX,
    ensures
        tree_steps(edges, count).len() == edges.len() + at.len(),
        forall|k: int|
            0 <= k < edges.len() ==> tree_steps(edges, count)[k] == (AssemblyStep::Pair {
                i: (#[trigger] edges[k]).0,
                j: edges[k].1,
            }) && step_factor(tree_steps(edges, count)[k]) == 1,
        lists_kept(at, count, |x: int| degree_of(edges, x) >= 2),
        forall|k: int|
            0 <= k < at.len() ==> tree_steps(edges, count)[edges.len() + k] == (AssemblyStep::Node {
                block: #[trigger] at[k] as usize,
                factor: (1 - degree_of(edges, at[k])) as i128,
            }),
{
    let at = lemma_excess_steps(edges, count);
    assert forall|k: int| 0 <= k < edges.len() implies tree_steps(edges, count)[k] == (
    AssemblyStep::Pair { i: (#[trigger] edges[k]).0, j: edges[k].1 }) && step_factor(
        tree_steps(edges, count)[k],
    ) == 1 by {
        assert(tree_steps(edges, count)[k] == pair_steps(edges)[k]);
    }
    assert forall|k: int| 0 <= k < at.len() implies tree_steps(edges, count)[edges.len() + k] == (
    AssemblyStep::Node {
        block: #[trigger] at[k] as usize,
        factor: (1 - degree_of(edges, at[k])) as i128,
    }) by {
        assert(tree_steps(edges, count)[edges.len() + k] == excess_steps(edges, count)[k]);
    }
    at
}

proof fn lemma_excess_steps(edges: Seq<(usize, usize)>, n: nat) -> (at: Seq<int>)
    requires
        n <= usize::MAX,
        2 * edges.len() <= i128::MAX,
    ensures
        lists_kept(at, n, |x: int| degree_of(edges, x) >= 2),
        excess_steps(edges, n).len() == at.len(),
        forall|k: int|
            0 <= k < at.len() ==> excess_steps(edges, n)[k] == (AssemblyStep::Node {
                block: #[trigger] at[k] as usize,
                factor: (1 - degree_of(edges, at[k])) as i128,
            }),
    decreases n,
{
    let kept = |x: int| degree_of(edges, x) >= 2;
    if n == 0 {
        Seq::empty()
    } else {
        let m = (n - 1) as nat;
        let before = lemma_excess_steps(edges, m);
        lemma_degree_bound(edges, m as int);
        crate::sequences::lemma_lists_one_more(before, m, kept);
        if kept(m as int) {
            let at = before.push(m as int);
            assert(at.last() == m);
            at
        } else {
            before
        }
    }
}

proof fn lemma_degree_bound(edges: Seq<(usize, usize)>, node: int)
    ensures
        0 <= degree_of(edges, node) <= 2 * edges.len(),
    decreases edges.len(),
{
    if edges.len() > 0 {
        lemma_degree_bound(edges.drop_last(), node);
    }
}

/// A block takes as many consecutive places as it has rows, and a pair takes those of the
/// first and then those of the second.
pub proof fn blocks_take_consecutive_places(i: int, j: int, block_dim: int, k: int)
    requires
        0 <= k < block_dim,
        0 <= i * block_dim + k <= usize::MAX,
        0 <= j * block_dim + k <= usize::MAX,
    ensures
        block_places(i, block_dim).len() == block_dim,
        block_places(i, block_dim)[k] == i * block_dim + k,
        pair_places(i, j, block_dim).len() == 2 * block_dim,
        pair_places(i, j, block_dim)[k] == i * block_dim + k,
        pair_places(i, j, block_dim)[block_dim + k] == j * block_dim + k,
{
}

/// The independent blocks of a diagonal prior add their information once each.
pub proof fn diagonal_blocks_are_added_once(n: nat, k: int)
    requires
        0 <= k < n <= usize::MAX,
    ensures
        diagonal_steps(n).len() == n,
        diagonal_steps(n)[k] == (AssemblyStep::Node { block: k as usize, factor: 1 }),
{
}

/// A prior cannot be sparsified where it does not divide into blocks or has no moments. One
/// block, or none, is kept as it is.
pub proof fn priors_need_blocks_and_moments<M, L, I, V, A, B, E>(
    lambda: DenseMatrix,
    eta: Vec<Scalar>,
    block_dim: usize,
    numerics: PriorNumerics<M, L, I, V, A, B, E>,
    moments: Option<Moments>,
    tree: Option<SparsifiedPrior>,
    diagonal: Option<SparsifiedPrior>,
) where
    M: Fn(&DenseMatrix, &Vec<Scalar>) -> Option<Moments>,
    L: Fn(&DenseMatrix) -> Option<Scalar>,
    I: Fn(Scalar, Scalar, Scalar) -> Scalar,
    V: Fn(&DenseMatrix) -> Option<DenseMatrix>,
    A: Fn(Scalar, Scalar, i128) -> Scalar,
    B: Fn(Scalar, Scalar) -> Scalar,
    E: Fn(&DenseMatrix, &Vec<Scalar>) -> Vec<Scalar>,

    requires
        is_chow_liu(lambda, eta, block_dim, numerics, moments, tree),
        is_diagonal(lambda, eta, block_dim, numerics, moments, diagonal),
    ensures
        ({
            let blocked = block_dim > 0 && lambda.columns == lambda.rows && eta@.len()
                == lambda.rows && lambda.rows as int % block_dim as int == 0;
            &&& !blocked ==> tree is None && diagonal is None
            &&& blocked ==> call_ensures(numerics.moments, (&lambda, &eta), moments)
            &&& blocked && moments is None ==> tree is None && diagonal is None
            &&& blocked && moments is Some && lambda.rows < 2 * block_dim ==> (
            tree matches Some(prior) && prior.lambda.same(lambda) && prior.eta@ == eta@
                && prior.edges@.len() == 0)
            &&& diagonal matches Some(prior) ==> prior.edges@.len() == 0
        }),
{
    if block_dim > 0 && lambda.rows < 2 * block_dim {
        assert(lambda.rows / block_dim <= 1) by (nonlinear_arith)
            requires
                block_dim > 0,
                lambda.rows < 2 * block_dim,
        ;
    }
}

/// A prior is put together from zero, one step after another; each step inverts the part of
/// the covariance at its places and adds it there, as often as its factor says, leaving every
/// other entry; the total is made symmetric, and the vector is the total applied to the mean.
pub proof fn priors_are_sums_of_inverse_parts<M, L, I, V, A, B, E>(
    steps: Seq<AssemblyStep>,
    moments: Moments,
    block_dim: usize,
    n: int,
    numerics: PriorNumerics<M, L, I, V, A, B, E>,
    form: InformationForm,
) -> (sums: Seq<DenseMatrix>) where
    M: Fn(&DenseMatrix, &Vec<Scalar>) -> Option<Moments>,
    L: Fn(&DenseMatrix) -> Option<Scalar>,
    I: Fn(Scalar, Scalar, Scalar) -> Scalar,
    V: Fn(&DenseMatrix) -> Option<DenseMatrix>,
    A: Fn(Scalar, Scalar, i128) -> Scalar,
    B: Fn(Scalar, Scalar) -> Scalar,
    E: Fn(&DenseMatrix, &Vec<Scalar>) -> Vec<Scalar>,

    requires
        is_built(steps, moments, block_dim, n, numerics, Some(form)),
    ensures
        sums.len() == steps.len() + 1,
        forall|row: int, column: int|
            0 <= row < n && 0 <= column < n ==> #[trigger] sums[0].at(row, column)
                == Scalar::zero(),
        forall|k: int|
            0 <= k < steps.len() ==> is_step(
                #[trigger] sums[k],
                steps[k],
                moments.sigma,
                block_dim,
                numerics,
                Some(sums[k + 1]),
            ),
        forall|i: int, j: int|
            0 <= i < sums.last().rows && 0 <= j < sums.last().rows ==> call_ensures(
                numerics.balance,
                (sums.last().at(i, j), sums.last().at(j, i)),
                #[trigger] form.lambda.at(i, j),
            ),
        call_ensures(numerics.apply, (&form.lambda, &moments.mu), form.eta),
{
    let (sums, total) = choose|sums: Seq<DenseMatrix>, total: Option<DenseMatrix>|
        {
            &&& #[trigger] is_assembly(
                steps,
                moments.sigma,
                block_dim,
                n,
                numerics,
                sums,
                total,
            )
            &&& match total {
                Some(total) => is_balanced(total, numerics.balance, form.lambda) && call_ensures(
                    numerics.apply,
                    (&form.lambda, &moments.mu),
                    form.eta,
                ),
                None => false,
            }
        };
    sums
}

/// What one step does to an entry: where both its row and its column are among the places, the
/// entry of the inverse part is added to it, as often as the factor says; any other entry
/// stays.
pub proof fn steps_add_at_their_places<M, L, I, V, A, B, E>(
    before: DenseMatrix,
    step: AssemblyStep,
    sigma: DenseMatrix,
    block_dim: usize,
    numerics: PriorNumerics<M, L, I, V, A, B, E>,
    after: DenseMatrix,
) -> (inverse: DenseMatrix) where
    M: Fn(&DenseMatrix, &Vec<Scalar>) -> Option<Moments>,
    L: Fn(&DenseMatrix) -> Option<Scalar>,
    I: Fn(Scalar, Scalar, Scalar) -> Scalar,
    V: Fn(&DenseMatrix) -> Option<DenseMatrix>,
    A: Fn(Scalar, Scalar, i128) -> Scalar,
    B: Fn(Scalar, Scalar) -> Scalar,
    E: Fn(&DenseMatrix, &Vec<Scalar>) -> Vec<Scalar>,

    requires
        is_step(before, step, sigma, block_dim, numerics, Some(after)),
        before.columns == before.rows,
    ensures
        ({
            let places = step_places(step, block_dim as int);
            &&& exists|part: DenseMatrix|
                {
                    &&& #[trigger] call_ensures(numerics.inverse, (&part,), Some(inverse))
                    &&& part.rows == places.len()
                    &&& forall|r: int, c: int|
                        0 <= r < places.len() && 0 <= c < places.len() ==> #[trigger] part.at(r, c)
                            == sigma.at(places[r] as int, places[c] as int)
                }
            &&& forall|i: int, j: int|
                0 <= i < places.len() && 0 <= j < places.len() ==> call_ensures(
                    numerics.accumulate,
                    (
                        before.at(places[i] as int, places[j] as int),
                        #[trigger] inverse.at(i, j),
                        step_factor(step),
                    ),
                    after.at(places[i] as int, places[j] as int),
                )
            &&& forall|p: int, q: int|
                0 <= p < before.rows && 0 <= q < before.rows && !(places.contains(p as usize)
                    && places.contains(q as usize)) ==> #[trigger] after.at(p, q) == before.at(p, q)
        }),
{
    let places = step_places(step, block_dim as int);
    let (part, inverse) = choose|part: DenseMatrix, inverse: Option<DenseMatrix>|
        {
            &&& sigma.has_part(places, part)
            &&& #[trigger] call_ensures(numerics.inverse, (&part,), inverse)
            &&& match inverse {
                Some(inverse) => is_sum_at(
                    before,
                    places,
                    inverse,
                    step_factor(step),
                    numerics.accumulate,
                    after,
                ),
                None => false,
            }
        };
    assert(call_ensures(numerics.inverse, (&part,), Some(inverse->0)));
    assert forall|i: int, j: int| 0 <= i < places.len() && 0 <= j < places.len() implies call_ensures(
        numerics.accumulate,
        (
            before.at(places[i] as int, places[j] as int),
            #[trigger] inverse->0.at(i, j),
            step_factor(step),
        ),
        after.at(places[i] as int, places[j] as int),
    ) by {
        assert(was_added(
            before,
            places,
            inverse->0,
            step_factor(step),
            numerics.accumulate,
            after.entries@,
            i,
            j,
        ));
    }
    inverse->0
}

/// A divergence needs two square matrices of one size, and all three parts of it.
pub proof fn divergences_need_equal_sizes<T, L, C>(
    p: DenseMatrix,
    q: DenseMatrix,
    numerics: DivergenceNumerics<T, L, C>,
    trace: Option<Scalar>,
    p_log: Option<Scalar>,
    q_log: Option<Scalar>,
    divergence: Option<Scalar>,
) where
    T: Fn(&DenseMatrix, &DenseMatrix) -> Option<Scalar>,
    L: Fn(&DenseMatrix) -> Option<Scalar>,
    C: Fn(Scalar, usize, Scalar, Scalar) -> Scalar,

    requires
        is_divergence(p, q, numerics, trace, p_log, q_log, divergence),
    ensures
        ({
            let fit = p.rows == p.columns && q.rows == p.rows && q.columns == p.rows;
            &&& !fit ==> divergence is None
            &&& fit ==> call_ensures(numerics.trace, (&p, &q), trace)
            &&& fit && trace is Some ==> call_ensures(numerics.logdet, (&p,), p_log)
            &&& fit && trace is Some && p_log is Some ==> call_ensures(
                numerics.logdet,
                (&q,),
                q_log,
            )
            &&& fit ==> (divergence is Some <==> trace is Some && p_log is Some && q_log is Some)
            &&& divergence matches Some(value) ==> call_ensures(
                numerics.combine,
                (trace->0, p.rows, p_log->0, q_log->0),
                value,
            )
        }),
{
}

/// What a part of the covariance is measured by: the logarithm of the determinant of the
/// entries at its places. A pair of blocks weighs the information between them, from the
/// logarithms of the two blocks and of both together, and has no weight where the last one
/// cannot be had.
pub proof fn pairs_weigh_their_information<M, L, I, V, A, B, E>(
    sigma: DenseMatrix,
    block_dim: usize,
    logs: Seq<Scalar>,
    numerics: PriorNumerics<M, L, I, V, A, B, E>,
    weights: Seq<Option<Scalar>>,
    candidates: Seq<WeightedEdge>,
    k: int,
) -> (part: DenseMatrix) where
    M: Fn(&DenseMatrix, &Vec<Scalar>) -> Option<Moments>,
    L: Fn(&DenseMatrix) -> Option<Scalar>,
    I: Fn(Scalar, Scalar, Scalar) -> Scalar,
    V: Fn(&DenseMatrix) -> Option<DenseMatrix>,
    A: Fn(Scalar, Scalar, i128) -> Scalar,
    B: Fn(Scalar, Scalar) -> Scalar,
    E: Fn(&DenseMatrix, &Vec<Scalar>) -> Vec<Scalar>,

    requires
        is_candidates(sigma, block_dim, logs, numerics, weights, candidates),
        0 <= k < weights.len(),
    ensures
        ({
            let pair = pairs_of_first(logs.len(), logs.len() as int)[k];
            let places = pair_places(pair.0 as int, pair.1 as int, block_dim as int);
            &&& part.rows == places.len()
            &&& forall|r: int, c: int|
                0 <= r < places.len() && 0 <= c < places.len() ==> #[trigger] part.at(r, c)
                    == sigma.at(places[r] as int, places[c] as int)
            &&& weights[k] is None ==> call_ensures(numerics.logdet, (&part,), None)
            &&& weights[k] matches Some(weight) ==> exists|joint: Scalar|
                {
                    &&& #[trigger] call_ensures(numerics.logdet, (&part,), Some(joint))
                    &&& call_ensures(
                        numerics.information,
                        (logs[pair.0 as int], logs[pair.1 as int], joint),
                        weight,
                    )
                }
        }),
{
    let pair = pairs_of_first(logs.len(), logs.len() as int)[k];
    let places = pair_places(pair.0 as int, pair.1 as int, block_dim as int);
    assert(is_pair_weight(sigma, block_dim, logs, pair, numerics, weights[k]));
    match weights[k] {
        None => choose|part: DenseMatrix|
            sigma.has_part(places, part) && #[trigger] call_ensures(
                numerics.logdet,
                (&part,),
                None,
            ),
        Some(weight) => {
            let joint = choose|joint: Scalar|
                {
                    &&& #[trigger] is_part_log(sigma, places, numerics, Some(joint))
                    &&& call_ensures(
                        numerics.information,
                        (logs[pair.0 as int], logs[pair.1 as int], joint),
                        weight,
                    )
                };
            let part = choose|part: DenseMatrix|
                sigma.has_part(places, part) && #[trigger] call_ensures(
                    numerics.logdet,
                    (&part,),
                    Some(joint),
                );
            assert(call_ensures(numerics.logdet, (&part,), Some(joint)));
            part
        },
    }
}

/// Every block is measured by itself, or one of them cannot be and there is no prior.
pub proof fn every_block_is_measured<M, L, I, V, A, B, E>(
    sigma: DenseMatrix,
    block_dim: usize,
    count: usize,
    numerics: PriorNumerics<M, L, I, V, A, B, E>,
    logs: Seq<Scalar>,
    i: int,
) -> (part: DenseMatrix) where
    M: Fn(&DenseMatrix, &Vec<Scalar>) -> Option<Moments>,
    L: Fn(&DenseMatrix) -> Option<Scalar>,
    I: Fn(Scalar, Scalar, Scalar) -> Scalar,
    V: Fn(&DenseMatrix) -> Option<DenseMatrix>,
    A: Fn(Scalar, Scalar, i128) -> Scalar,
    B: Fn(Scalar, Scalar) -> Scalar,
    E: Fn(&DenseMatrix, &Vec<Scalar>) -> Vec<Scalar>,

    requires
        is_node_logs(sigma, block_dim, count, numerics, Some(logs)),
        0 <= i < count,
    ensures
        logs.len() == count,
        part.rows == block_places(i, block_dim as int).len(),
        forall|r: int, c: int|
            0 <= r < block_dim && 0 <= c < block_dim ==> #[trigger] part.at(r, c) == sigma.at(
                block_places(i, block_dim as int)[r] as int,
                block_places(i, block_dim as int)[c] as int,
            ),
        call_ensures(numerics.logdet, (&part,), Some(logs[i])),
{
    let places = block_places(i, block_dim as int);
    assert(is_part_log(sigma, places, numerics, Some(logs[i])));
    choose|part: DenseMatrix|
        sigma.has_part(places, part) && #[trigger] call_ensures(
            numerics.logdet,
            (&part,),
            Some(logs[i]),
        )
}

} // verus!
