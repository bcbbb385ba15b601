//! Maximum-weight spanning trees over the blocks of a dense Gaussian prior, by Kruskal's
//! algorithm on a union-find structure.
use crate::order::{
    precedes, stable_order, stable_order_exists, stable_order_is_complete, stable_order_of,
    SortKey,
};
use crate::scalar::Scalar;
use crate::sequences::{count_where, lists_kept};
use vstd::prelude::*;

verus! {

/// Union-find over the nodes `0..n`.
#[derive(Clone, Debug)]
pub struct DisjointSet {
    parent: Vec<usize>,
    rank: Vec<usize>,
}

/// `x` is the representative of its set.
pub open spec fn is_root(parent: Seq<usize>) -> spec_fn(int) -> bool {
    |x: int| parent[x] == x
}

/// Parents are nodes, ranks grow along parents, and a rank exceeds neither the
/// number of unions made so far.
spec fn forest(parent: Seq<usize>, rank: Seq<usize>) -> bool {
    &&& parent.len() == rank.len()
    &&& parent.len() <= usize::MAX
    &&& forall|x: int| 0 <= x < parent.len() ==> (#[trigger] parent[x]) < parent.len()
    &&& forall|x: int|
        #![trigger parent[x]]
        0 <= x < parent.len() && parent[x] != x ==> rank[x] < rank[parent[x] as int]
    &&& forall|x: int|
        0 <= x < parent.len() ==> (#[trigger] rank[x]) + count_where(
            parent.len(),
            is_root(parent),
        ) <= parent.len()
}

/// The representative of `x`.
spec fn root(parent: Seq<usize>, rank: Seq<usize>, x: int) -> int
    decreases parent.len() - rank[x],
{
    if 0 <= x < parent.len() && parent[x] != x && rank[x] < rank[parent[x] as int]
        && rank[parent[x] as int] <= parent.len() {
        root(parent, rank, parent[x] as int)
    } else {
        x
    }
}

proof fn lemma_root(parent: Seq<usize>, rank: Seq<usize>, x: int)
    requires
        forest(parent, rank),
        0 <= x < parent.len(),
    ensures
        0 <= root(parent, rank, x) < parent.len(),
        parent[root(parent, rank, x)] == root(parent, rank, x),
        rank[x] <= rank[root(parent, rank, x)],
        x != root(parent, rank, x) ==> rank[x] < rank[root(parent, rank, x)],
        root(parent, rank, x) == x <==> parent[x] == x,
        root(parent, rank, parent[x] as int) == root(parent, rank, x),
    decreases parent.len() - rank[x],
{
    if parent[x] != x {
        assert(rank[x] < rank[parent[x] as int]);
        assert(rank[parent[x] as int] <= parent.len());
        lemma_root(parent, rank, parent[x] as int);
    }
}

/// Hanging a node directly under its representative changes no representative.
proof fn lemma_compress(parent: Seq<usize>, rank: Seq<usize>, x: int, y: int)
    requires
        forest(parent, rank),
        0 <= x < parent.len(),
        0 <= y < parent.len(),
    ensures
        forest(parent.update(x, root(parent, rank, x) as usize), rank),
        root(parent.update(x, root(parent, rank, x) as usize), rank, y) == root(parent, rank, y),
    decreases parent.len() - rank[y],
{
    let r = root(parent, rank, x);
    let after = parent.update(x, r as usize);
    lemma_root(parent, rank, x);
    lemma_same_roots(parent, after, parent.len());
    assert(forest(after, rank));
    if parent[y] != y {
        assert(rank[y] < rank[parent[y] as int]);
        lemma_compress(parent, rank, x, parent[y] as int);
        if y == x {
            assert(after[r] == r) by {
                if r == x {
                }
            }
            assert(root(after, rank, r) == r);
            assert(root(after, rank, x) == r);
        } else {
            assert(after[y] == parent[y]);
        }
    } else {
        assert(after[y] == y) by {
            if y == x {
                assert(r == x);
            }
        }
    }
}

/// Where the same nodes are representatives, their number is the same.
proof fn lemma_same_roots(before: Seq<usize>, after: Seq<usize>, n: nat)
    requires
        before.len() == after.len(),
        n <= before.len(),
        forall|x: int| 0 <= x < before.len() ==> (#[trigger] before[x] == x <==> after[x] == x),
    ensures
        count_where(n, is_root(before)) == count_where(n, is_root(after)),
    decreases n,
{
    if n > 0 {
        lemma_same_roots(before, after, (n - 1) as nat);
        assert(before[n - 1] == n - 1 <==> after[n - 1] == n - 1);
    }
}

/// Hanging one representative under another removes one representative.
proof fn lemma_one_root_less(before: Seq<usize>, loser: int, winner: int, n: nat)
    requires
        0 <= loser < before.len(),
        0 <= winner < before.len(),
        winner != loser,
        before[loser] == loser,
        n <= before.len() <= usize::MAX,
    ensures
        count_where(n, is_root(before.update(loser, winner as usize))) == count_where(
            n,
            is_root(before),
        ) - (if loser < n {
            1int
        } else {
            0int
        }),
    decreases n,
{
    if n > 0 {
        lemma_one_root_less(before, loser, winner, (n - 1) as nat);
    }
}

proof fn lemma_two_roots(parent: Seq<usize>, a: int, b: int, n: nat)
    requires
        0 <= a < n,
        0 <= b < n,
        a != b,
        parent[a] == a,
        parent[b] == b,
    ensures
        count_where(n, is_root(parent)) >= 2,
    decreases n,
{
    if a == n - 1 {
        lemma_one_root(parent, b, (n - 1) as nat);
    } else if b == n - 1 {
        lemma_one_root(parent, a, (n - 1) as nat);
    } else {
        lemma_two_roots(parent, a, b, (n - 1) as nat);
    }
}

proof fn lemma_one_root(parent: Seq<usize>, a: int, n: nat)
    requires
        0 <= a < n,
        parent[a] == a,
    ensures
        count_where(n, is_root(parent)) >= 1,
    decreases n,
{
    if a != n - 1 {
        lemma_one_root(parent, a, (n - 1) as nat);
    }
}

/// Hanging the representative `loser` under the representative `winner`: the set of
/// `loser` gets the representative `winner`, and nothing else changes.
proof fn lemma_link(
    parent: Seq<usize>,
    rank: Seq<usize>,
    after_rank: Seq<usize>,
    loser: int,
    winner: int,
    y: int,
)
    requires
        forest(parent, rank),
        0 <= loser < parent.len(),
        0 <= winner < parent.len(),
        winner != loser,
        parent[loser] == loser,
        parent[winner] == winner,
        0 <= y < parent.len(),
        after_rank == rank && rank[loser] < rank[winner] || rank[loser] == rank[winner]
            && after_rank == rank.update(winner, (rank[winner] + 1) as usize),
    ensures
        forest(parent.update(loser, winner as usize), after_rank),
        root(parent.update(loser, winner as usize), after_rank, y) == if root(parent, rank, y)
            == loser {
            winner
        } else {
            root(parent, rank, y)
        },
    decreases parent.len() - rank[y],
{
    let after = parent.update(loser, winner as usize);
    lemma_one_root_less(parent, loser, winner, parent.len());
    lemma_two_roots(parent, loser, winner, parent.len());
    assert(rank[winner] + 2 <= parent.len());
    assert forall|x: int| #![trigger after[x]] 0 <= x < after.len() && after[x] != x implies after_rank[x]
        < after_rank[after[x] as int] by {
        if x == loser {
        } else {
            assert(parent[x] != x);
            assert(rank[x] < rank[parent[x] as int]);
        }
    }
    assert(forest(after, after_rank));
    if parent[y] != y {
        assert(rank[y] < rank[parent[y] as int]);
        lemma_link(parent, rank, after_rank, loser, winner, parent[y] as int);
        lemma_root(parent, rank, y);
        assert(after[y] == parent[y]);
        assert(after_rank[y] < after_rank[after[y] as int]);
    } else if y == loser {
        assert(after[winner] == winner);
        assert(root(after, after_rank, winner) == winner);
    } else {
        assert(after[y] == y);
    }
}

impl DisjointSet {
    /// Number of nodes.
    pub closed spec fn len(self) -> nat {
        self.parent.len() as nat
    }

    pub closed spec fn wf(self) -> bool {
        forest(self.parent@, self.rank@)
    }

    /// The representative of a node's set.
    pub closed spec fn representative(self, x: int) -> int {
        root(self.parent@, self.rank@, x)
    }

    /// The two nodes are in one set.
    pub open spec fn same(self, x: int, y: int) -> bool {
        self.representative(x) == self.representative(y)
    }

    /// Number of sets.
    pub closed spec fn sets(self) -> nat {
        count_where(self.parent.len() as nat, is_root(self.parent@))
    }

    /// Every node in a set of its own.
    pub fn new(n: usize) -> (sets: Self)
        ensures
            sets.wf(),
            sets.len() == n,
            sets.sets() == n,
            forall|x: int| 0 <= x < n ==> #[trigger] sets.representative(x) == x,
    {
        let mut parent: Vec<usize> = Vec::new();
        let mut rank: Vec<usize> = Vec::new();
        let mut i: usize = 0;
        while i < n
            invariant
                i <= n,
                parent.len() == i,
                rank.len() == i,
                forall|x: int| 0 <= x < i ==> #[trigger] parent[x] == x,
                forall|x: int| 0 <= x < i ==> #[trigger] rank[x] == 0,
            decreases n - i,
        {
            parent.push(i);
            rank.push(0);
            i += 1;
        }
        proof {
            lemma_all_roots(parent@, n as nat);
        }
        DisjointSet { parent, rank }
    }

    /// The representative of the set of `x`; paths are compressed on the way, which
    /// changes no set.
    pub fn find(&mut self, x: usize) -> (r: usize)
        requires
            old(self).wf(),
            x < old(self).len(),
        ensures
            final(self).wf(),
            final(self).len() == old(self).len(),
            final(self).sets() == old(self).sets(),
            r == old(self).representative(x as int),
            r < old(self).len(),
            forall|y: int|
                0 <= y < old(self).len() ==> #[trigger] final(self).representative(y) == old(self).representative(y),
            final(self).representative(r as int) == r,
        decreases old(self).len() - old(self).rank_of(x as int),
    {
        proof {
            lemma_root(self.parent@, self.rank@, x as int);
        }
        if self.parent[x] != x {
            let p: usize = self.parent[x];
            proof {
                assert(self.rank[x as int] < self.rank[p as int]);
                assert(self.rank[p as int] <= self.parent.len());
            }
            let r: usize = self.find(p);
            let ghost mid = *self;
            let ghost before = self.parent@;
            proof {
                assert(mid.representative(x as int) == r);
                lemma_root(before, self.rank@, x as int);
                lemma_compress(before, self.rank@, x as int, x as int);
                assert forall|y: int| 0 <= y < before.len() implies root(
                    before.update(x as int, r),
                    self.rank@,
                    y,
                ) == mid.representative(y) by {
                    lemma_compress(before, self.rank@, x as int, y);
                }
                assert(before[x as int] != x);
            }
            self.parent.set(x, r);
            proof {
                lemma_same_roots(before, self.parent@, before.len());
                assert forall|y: int| 0 <= y < before.len() implies #[trigger] self.representative(
                    y,
                ) == old(self).representative(y) by {
                    assert(self.parent@ == before.update(x as int, r));
                    assert(self.representative(y) == mid.representative(y));
                }
                lemma_root(self.parent@, self.rank@, r as int);
            }
            r
        } else {
            x
        }
    }

    /// Bounds the length of the path from a node to its representative.
    pub closed spec fn rank_of(self, x: int) -> int {
        self.rank[x] as int
    }

    /// Joins the sets of `a` and `b`; says whether they were different.
    pub fn union(&mut self, a: usize, b: usize) -> (joined: bool)
        requires
            old(self).wf(),
            a < old(self).len(),
            b < old(self).len(),
        ensures
            final(self).wf(),
            final(self).len() == old(self).len(),
            joined == !old(self).same(a as int, b as int),
            final(self).sets() == old(self).sets() - (if joined {
                1int
            } else {
                0int
            }),
            forall|x: int, y: int|
                0 <= x < old(self).len() && 0 <= y < old(self).len() ==> (
                #[trigger] final(self).same(x, y) <==> {
                    ||| old(self).same(x, y)
                    ||| old(self).same(x, a as int) && old(self).same(b as int, y)
                    ||| old(self).same(x, b as int) && old(self).same(a as int, y)
                }),
    {
        let ra: usize = self.find(a);
        let ghost between = *self;
        let rb: usize = self.find(b);
        let ghost first = *self;
        proof {
            assert forall|x: int| 0 <= x < old(self).len() implies #[trigger] first.representative(x)
                == old(self).representative(x) by {
                assert(first.representative(x) == between.representative(x));
            }
        }
        if ra == rb {
            return false;
        }
        let ghost parent = self.parent@;
        let ghost rank = self.rank@;
        proof {
            assert(first.representative(ra as int) == between.representative(ra as int));
            lemma_root(parent, rank, ra as int);
            lemma_root(parent, rank, rb as int);
            assert(parent[ra as int] == ra);
            assert(parent[rb as int] == rb);
            lemma_two_roots(parent, ra as int, rb as int, parent.len());
            assert(rank[ra as int] + 2 <= parent.len());
        }
        let rank_a: usize = self.rank[ra];
        let rank_b: usize = self.rank[rb];
        let ghost (loser, winner) = if rank_a < rank_b {
            (ra as int, rb as int)
        } else {
            (rb as int, ra as int)
        };
        if rank_a < rank_b {
            self.parent.set(ra, rb);
        } else if rank_b < rank_a {
            self.parent.set(rb, ra);
        } else {
            self.parent.set(rb, ra);
            self.rank.set(ra, rank_a + 1);
        }
        proof {
            lemma_one_root_less(parent, loser, winner, parent.len());
            lemma_link(parent, rank, self.rank@, loser, winner, loser);
            assert forall|y: int| 0 <= y < parent.len() implies root(
                self.parent@,
                self.rank@,
                y,
            ) == if root(parent, rank, y) == loser {
                winner
            } else {
                root(parent, rank, y)
            } by {
                lemma_link(parent, rank, self.rank@, loser, winner, y);
            }
            assert forall|x: int| 0 <= x < parent.len() implies #[trigger] root(parent, rank, x)
                == old(self).representative(x) by {
                assert(first.representative(x) == between.representative(x));
                assert(between.representative(x) == old(self).representative(x));
            }
            let before = *old(self);
            let after = *self;
            assert forall|x: int, y: int|
                0 <= x < before.len() && 0 <= y < before.len() implies (#[trigger] after.same(
                x,
                y,
            ) <==> before.same(x, y) || (before.same(x, a as int) && before.same(b as int, y)) || (
            before.same(x, b as int) && before.same(a as int, y))) by {
                assert(after.representative(x) == root(self.parent@, self.rank@, x));
                assert(after.representative(y) == root(self.parent@, self.rank@, y));
                assert(before.representative(x) == root(parent, rank, x));
                assert(before.representative(y) == root(parent, rank, y));
            }
        }
        true
    }
}

proof fn lemma_all_roots(parent: Seq<usize>, n: nat)
    requires
        n <= parent.len(),
        forall|x: int| 0 <= x < n ==> #[trigger] parent[x] == x,
    ensures
        count_where(n, is_root(parent)) == n,
    decreases n,
{
    if n > 0 {
        lemma_all_roots(parent, (n - 1) as nat);
    }
}

/// Representatives that are all the same, and a single set, are one thing.
proof fn lemma_single_set(sets: DisjointSet)
    requires
        sets.wf(),
        sets.len() > 0,
    ensures
        sets.sets() >= 1,
        sets.sets() == 1 <==> forall|x: int, y: int|
            0 <= x < sets.len() && 0 <= y < sets.len() ==> #[trigger] sets.same(x, y),
{
    let parent = sets.parent@;
    let rank = sets.rank@;
    lemma_root(parent, rank, 0);
    lemma_one_root(parent, root(parent, rank, 0), parent.len());
    if sets.sets() == 1 {
        assert forall|x: int, y: int|
            0 <= x < sets.len() && 0 <= y < sets.len() implies #[trigger] sets.same(x, y) by {
            lemma_root(parent, rank, x);
            lemma_root(parent, rank, y);
            if root(parent, rank, x) != root(parent, rank, y) {
                lemma_two_roots(
                    parent,
                    root(parent, rank, x),
                    root(parent, rank, y),
                    parent.len(),
                );
            }
        }
    }
    if forall|x: int, y: int|
        0 <= x < sets.len() && 0 <= y < sets.len() ==> #[trigger] sets.same(x, y) {
        let r = root(parent, rank, 0);
        assert forall|x: int| 0 <= x < parent.len() && parent[x] == x implies x == r by {
            lemma_root(parent, rank, x);
            assert(sets.same(x, 0));
        }
        lemma_only_root(parent, r, parent.len());
    }
}

proof fn lemma_only_root(parent: Seq<usize>, r: int, n: nat)
    requires
        n <= parent.len(),
        forall|x: int| 0 <= x < n && #[trigger] parent[x] == x ==> x == r,
    ensures
        count_where(n, is_root(parent)) <= if r < n {
            1int
        } else {
            0int
        },
    decreases n,
{
    if n > 0 {
        if r < n - 1 {
            lemma_only_root(parent, r, (n - 1) as nat);
            assert(parent[n - 1] != n - 1);
        } else {
            lemma_only_root(parent, n - 1, (n - 1) as nat);
        }
    }
}

/// A candidate edge between two blocks, weighted by their mutual information.
#[derive(Clone, Copy, Debug, PartialEq, Eq, Structural)]
pub struct WeightedEdge {
    pub weight: Scalar,
    pub i: usize,
    pub j: usize,
}

/// The edge links the two nodes, in either direction.
pub open spec fn joins(edge: (usize, usize), x: int, y: int) -> bool {
    (edge.0 == x && edge.1 == y) || (edge.0 == y && edge.1 == x)
}

/// One of the edges links the two nodes.
pub open spec fn adjacent(edges: Seq<(usize, usize)>, x: int, y: int) -> bool {
    exists|m: int| 0 <= m < edges.len() && joins(#[trigger] edges[m], x, y)
}

/// A walk along edges from `x` to `y`.
pub open spec fn is_path(edges: Seq<(usize, usize)>, path: Seq<int>, x: int, y: int) -> bool {
    &&& path.len() > 0
    &&& path[0] == x
    &&& path.last() == y
    &&& forall|k: int|
        #![trigger path[k]]
        0 <= k < path.len() - 1 ==> adjacent(edges, path[k], path[k + 1])
}

/// Edges lead from `x` to `y`.
pub open spec fn connected(edges: Seq<(usize, usize)>, x: int, y: int) -> bool {
    exists|path: Seq<int>| is_path(edges, path, x, y)
}

proof fn lemma_connected_reflexive(edges: Seq<(usize, usize)>, x: int)
    ensures
        connected(edges, x, x),
{
    assert(is_path(edges, seq![x], x, x));
}

proof fn lemma_connected_step(edges: Seq<(usize, usize)>, x: int, y: int, z: int)
    requires
        connected(edges, x, y),
        adjacent(edges, y, z),
    ensures
        connected(edges, x, z),
{
    let path = choose|path: Seq<int>| is_path(edges, path, x, y);
    let longer = path.push(z);
    assert forall|k: int| #![trigger longer[k]] 0 <= k < longer.len() - 1 implies adjacent(
        edges,
        longer[k],
        longer[k + 1],
    ) by {
        if k < path.len() - 1 {
            assert(longer[k] == path[k]);
        }
    }
    assert(is_path(edges, longer, x, z));
}

proof fn lemma_connected_transitive(edges: Seq<(usize, usize)>, x: int, y: int, z: int)
    requires
        connected(edges, x, y),
        connected(edges, y, z),
    ensures
        connected(edges, x, z),
{
    let path = choose|path: Seq<int>| is_path(edges, path, y, z);
    lemma_walk_on(edges, x, y, path, path.len() as int);
    assert(path.take(path.len() as int) =~= path);
}

proof fn lemma_walk_on(edges: Seq<(usize, usize)>, x: int, y: int, path: Seq<int>, n: int)
    requires
        connected(edges, x, y),
        is_path(edges, path, y, path.last()),
        0 < n <= path.len(),
    ensures
        connected(edges, x, path[n - 1]),
    decreases n,
{
    if n > 1 {
        lemma_walk_on(edges, x, y, path, n - 1);
        assert(adjacent(edges, path[n - 2], path[n - 1]));
        lemma_connected_step(edges, x, path[n - 2], path[n - 1]);
    }
}

proof fn lemma_connected_symmetric(edges: Seq<(usize, usize)>, x: int, y: int)
    requires
        connected(edges, x, y),
    ensures
        connected(edges, y, x),
{
    let path = choose|path: Seq<int>| is_path(edges, path, x, y);
    let back = Seq::new(path.len(), |k: int| path[path.len() - 1 - k]);
    assert forall|k: int| #![trigger back[k]] 0 <= k < back.len() - 1 implies adjacent(
        edges,
        back[k],
        back[k + 1],
    ) by {
        let l = path.len() - 2 - k;
        assert(adjacent(edges, path[l], path[l + 1]));
        let m = choose|m: int|
            0 <= m < edges.len() && joins(#[trigger] edges[m], path[l], path[l + 1]);
        assert(joins(edges[m], back[k], back[k + 1]));
    }
    assert(is_path(edges, back, y, x));
}

proof fn lemma_connected_grows(
    edges: Seq<(usize, usize)>,
    edge: (usize, usize),
    x: int,
    y: int,
)
    requires
        connected(edges, x, y),
    ensures
        connected(edges.push(edge), x, y),
{
    let path = choose|path: Seq<int>| is_path(edges, path, x, y);
    let longer = edges.push(edge);
    assert forall|k: int| #![trigger path[k]] 0 <= k < path.len() - 1 implies adjacent(
        longer,
        path[k],
        path[k + 1],
    ) by {
        let m = choose|m: int|
            0 <= m < edges.len() && joins(#[trigger] edges[m], path[k], path[k + 1]);
        assert(joins(longer[m], path[k], path[k + 1]));
    }
    assert(is_path(longer, path, x, y));
}

/// What one more edge connects.
spec fn connected_through(
    edges: Seq<(usize, usize)>,
    edge: (usize, usize),
    x: int,
    y: int,
) -> bool {
    ||| connected(edges, x, y)
    ||| connected(edges, x, edge.0 as int) && connected(edges, edge.1 as int, y)
    ||| connected(edges, x, edge.1 as int) && connected(edges, edge.0 as int, y)
}

proof fn lemma_connected_push(edges: Seq<(usize, usize)>, edge: (usize, usize), x: int, y: int)
    ensures
        connected(edges.push(edge), x, y) <==> connected_through(edges, edge, x, y),
{
    let longer = edges.push(edge);
    let a = edge.0 as int;
    let b = edge.1 as int;
    if connected_through(edges, edge, x, y) {
        assert(joins(longer[edges.len() as int], a, b));
        assert(joins(longer[edges.len() as int], b, a));
        if connected(edges, x, y) {
            lemma_connected_grows(edges, edge, x, y);
        } else if connected(edges, x, a) && connected(edges, b, y) {
            lemma_connected_grows(edges, edge, x, a);
            lemma_connected_grows(edges, edge, b, y);
            lemma_connected_step(longer, x, a, b);
            lemma_connected_transitive(longer, x, b, y);
        } else {
            lemma_connected_grows(edges, edge, x, b);
            lemma_connected_grows(edges, edge, a, y);
            lemma_connected_step(longer, x, b, a);
            lemma_connected_transitive(longer, x, a, y);
        }
    }
    if connected(longer, x, y) {
        let path = choose|path: Seq<int>| is_path(longer, path, x, y);
        lemma_walk_through(edges, edge, path, x, path.len() as int);
    }
}

proof fn lemma_walk_through(
    edges: Seq<(usize, usize)>,
    edge: (usize, usize),
    path: Seq<int>,
    x: int,
    n: int,
)
    requires
        is_path(edges.push(edge), path, x, path.last()),
        0 < n <= path.len(),
    ensures
        connected_through(edges, edge, x, path[n - 1]),
    decreases n,
{
    let a = edge.0 as int;
    let b = edge.1 as int;
    lemma_connected_reflexive(edges, a);
    lemma_connected_reflexive(edges, b);
    if n == 1 {
        lemma_connected_reflexive(edges, x);
    } else {
        lemma_walk_through(edges, edge, path, x, n - 1);
        let u = path[n - 2];
        let v = path[n - 1];
        assert(adjacent(edges.push(edge), u, v));
        let m = choose|m: int|
            0 <= m < edges.push(edge).len() && joins(#[trigger] edges.push(edge)[m], u, v);
        if m < edges.len() {
            assert(joins(edges[m], u, v));
            assert(adjacent(edges, u, v));
            if connected(edges, x, u) {
                lemma_connected_step(edges, x, u, v);
            } else if connected(edges, x, a) && connected(edges, b, u) {
                lemma_connected_step(edges, b, u, v);
            } else {
                lemma_connected_step(edges, a, u, v);
            }
        }
    }
}

/// The candidates by decreasing weight, equal weights in the order given.
pub open spec fn by_weight(candidates: Seq<WeightedEdge>) -> Seq<WeightedEdge> {
    let order = stable_order_of(
        candidates.map_values(|edge: WeightedEdge| weight_key(edge)),
    );
    Seq::new(order.len(), |k: int| candidates[order[k] as int])
}

pub open spec fn weight_key(edge: WeightedEdge) -> SortKey {
    SortKey::one(-edge.weight.rank() as i128)
}

/// The end points of weighted edges.
pub open spec fn end_points(edges: Seq<WeightedEdge>) -> Seq<(usize, usize)> {
    edges.map_values(|edge: WeightedEdge| (edge.i, edge.j))
}

/// The edges among the first `n` whose end points no earlier edge connects.
pub open spec fn greedy_tree(edges: Seq<(usize, usize)>, n: nat) -> Seq<(usize, usize)>
    decreases n,
{
    if n == 0 {
        Seq::empty()
    } else {
        let edge = edges[n - 1];
        if connected(edges.take(n - 1), edge.0 as int, edge.1 as int) {
            greedy_tree(edges, (n - 1) as nat)
        } else {
            greedy_tree(edges, (n - 1) as nat).push(edge)
        }
    }
}

/// The Chow-Liu tree of the candidates: taken by decreasing weight, those whose end
/// points are not connected by what came before.
pub open spec fn chow_liu_edges(candidates: Seq<WeightedEdge>) -> Seq<(usize, usize)> {
    greedy_tree(end_points(by_weight(candidates)), candidates.len())
}

/// The greedy tree connects what the edges connect.
proof fn lemma_greedy_connects(edges: Seq<(usize, usize)>, n: nat, x: int, y: int)
    requires
        n <= edges.len(),
    ensures
        connected(greedy_tree(edges, n), x, y) <==> connected(edges.take(n as int), x, y),
    decreases n,
{
    if n == 0 {
        assert(edges.take(0) =~= Seq::<(usize, usize)>::empty());
    } else {
        let m = (n - 1) as nat;
        let edge = edges[n - 1];
        let a = edge.0 as int;
        let b = edge.1 as int;
        let shorter = edges.take(n - 1);
        assert(edges.take(n as int) =~= shorter.push(edge));
        lemma_connected_push(shorter, edge, x, y);
        lemma_greedy_connects(edges, m, x, y);
        if connected(shorter, a, b) {
            lemma_connected_symmetric(shorter, a, b);
            if connected(shorter, x, a) && connected(shorter, b, y) {
                lemma_connected_transitive(shorter, x, a, b);
                lemma_connected_transitive(shorter, x, b, y);
            }
            if connected(shorter, x, b) && connected(shorter, a, y) {
                lemma_connected_transitive(shorter, x, b, a);
                lemma_connected_transitive(shorter, x, a, y);
            }
        } else {
            lemma_connected_push(greedy_tree(edges, m), edge, x, y);
            lemma_greedy_connects(edges, m, x, a);
            lemma_greedy_connects(edges, m, b, y);
            lemma_greedy_connects(edges, m, x, b);
            lemma_greedy_connects(edges, m, a, y);
        }
    }
}

/// Once every two nodes are connected, no further edge is taken.
proof fn lemma_greedy_is_done(edges: Seq<(usize, usize)>, n: nat, nodes: int)
    requires
        n <= edges.len(),
        forall|m: int|
            0 <= m < edges.len() ==> (#[trigger] edges[m]).0 < nodes && edges[m].1 < nodes,
        forall|x: int, y: int|
            0 <= x < nodes && 0 <= y < nodes ==> #[trigger] connected(edges.take(n as int), x, y),
    ensures
        greedy_tree(edges, edges.len()) == greedy_tree(edges, n),
    decreases edges.len() - n,
{
    if n < edges.len() {
        let edge = edges[n as int];
        assert(connected(edges.take(n as int), edge.0 as int, edge.1 as int));
        assert(greedy_tree(edges, (n + 1) as nat) == greedy_tree(edges, n));
        assert forall|x: int, y: int| 0 <= x < nodes && 0 <= y < nodes implies #[trigger] connected(
            edges.take((n + 1) as int),
            x,
            y,
        ) by {
            assert(edges.take((n + 1) as int) =~= edges.take(n as int).push(edge));
            assert(connected(edges.take(n as int), x, y));
            lemma_connected_grows(edges.take(n as int), edge, x, y);
        }
        lemma_greedy_is_done(edges, n + 1, nodes);
    }
}

/// A spanning tree of the blocks, and how many of its edges meet at each of them.
#[derive(Clone, Debug, PartialEq, Eq)]
pub struct ChowLiuTree {
    /// Pairs of block indices, in the order of their weights.
    pub edges: Vec<(usize, usize)>,
    pub degree: Vec<usize>,
}

/// Number of edge ends at a node.
pub open spec fn degree_of(edges: Seq<(usize, usize)>, node: int) -> int
    decreases edges.len(),
{
    if edges.len() == 0 {
        0
    } else {
        degree_of(edges.drop_last(), node) + (if edges.last().0 == node {
            1int
        } else {
            0int
        }) + (if edges.last().1 == node {
            1int
        } else {
            0int
        })
    }
}

proof fn lemma_degree_bound(edges: Seq<(usize, usize)>, node: int)
    ensures
        0 <= degree_of(edges, node) <= 2 * edges.len(),
    decreases edges.len(),
{
    if edges.len() > 0 {
        lemma_degree_bound(edges.drop_last(), node);
    }
}

/// The end points lie among the nodes.
pub open spec fn edges_in_range(candidates: Seq<WeightedEdge>, num_nodes: int) -> bool {
    forall|m: int|
        0 <= m < candidates.len() ==> (#[trigger] candidates[m]).i < num_nodes && candidates[m].j
            < num_nodes
}

/// Sorts the candidates by decreasing weight.
fn sort_by_weight(candidates: &[WeightedEdge]) -> (sorted: Vec<WeightedEdge>)
    ensures
        sorted@ == by_weight(candidates@),
        sorted.len() == candidates.len(),
        forall|n: int| edges_in_range(candidates@, n) ==> #[trigger] edges_in_range(sorted@, n),
{
    let mut keys: Vec<SortKey> = Vec::new();
    let mut i: usize = 0;
    while i < candidates.len()
        invariant
            i <= candidates.len(),
            keys.len() == i,
            forall|k: int| 0 <= k < i ==> #[trigger] keys[k] == weight_key(candidates[k]),
        decreases candidates.len() - i,
    {
        keys.push(SortKey::one(-candidates[i].weight.numeric_rank()));
        i += 1;
    }
    assert(keys@ =~= candidates@.map_values(|edge: WeightedEdge| weight_key(edge)));
    let order = stable_order(&keys);
    let mut sorted: Vec<WeightedEdge> = Vec::new();
    let mut k: usize = 0;
    while k < order.len()
        invariant
            k <= order.len(),
            order.len() == candidates.len(),
            forall|m: int| 0 <= m < order.len() ==> (#[trigger] order[m]) < candidates.len(),
            sorted.len() == k,
            forall|m: int| 0 <= m < k ==> #[trigger] sorted[m] == candidates[order[m] as int],
        decreases order.len() - k,
    {
        sorted.push(candidates[order[k]]);
        k += 1;
    }
    assert(sorted@ =~= by_weight(candidates@));
    assert forall|n: int| edges_in_range(candidates@, n) implies #[trigger] edges_in_range(
        sorted@,
        n,
    ) by {
        assert forall|m: int| 0 <= m < sorted.len() implies (#[trigger] sorted@[m]).i < n
            && sorted@[m].j < n by {
            assert(sorted[m] == candidates[order[m] as int]);
        }
    }
    sorted
}

/// The maximum-weight spanning tree of the blocks, by Kruskal's algorithm; none where
/// the candidates do not connect all blocks.
pub fn chow_liu_tree(num_nodes: usize, candidates: &[WeightedEdge]) -> (tree: Option<ChowLiuTree>)
    requires
        num_nodes > 0,
        2 * num_nodes <= usize::MAX,
        edges_in_range(candidates@, num_nodes as int),
        forall|m: int| 0 <= m < candidates.len() ==> !(#[trigger] candidates[m]).weight.is_nan(),
    ensures
        tree is Some <==> forall|x: int, y: int|
            0 <= x < num_nodes && 0 <= y < num_nodes ==> #[trigger] connected(
                end_points(candidates@),
                x,
                y,
            ),
        tree is Some <==> chow_liu_edges(candidates@).len() == num_nodes - 1,
        tree matches Some(t) ==> {
            &&& t.edges@ == chow_liu_edges(candidates@)
            &&& t.edges.len() == num_nodes - 1
            &&& forall|x: int, y: int|
                0 <= x < num_nodes && 0 <= y < num_nodes ==> #[trigger] connected(t.edges@, x, y)
            &&& t.degree.len() == num_nodes
            &&& forall|x: int|
                0 <= x < num_nodes ==> #[trigger] t.degree[x] == degree_of(t.edges@, x)
        },
{
    let sorted = sort_by_weight(candidates);
    let ghost ends = end_points(sorted@);
    proof {
        assert(edges_in_range(sorted@, num_nodes as int));
        assert forall|m: int| 0 <= m < ends.len() implies (#[trigger] ends[m]).0 < num_nodes
            && ends[m].1 < num_nodes by {
            assert(sorted[m].i < num_nodes);
        }
    }
    let mut sets = DisjointSet::new(num_nodes);
    let mut edges: Vec<(usize, usize)> = Vec::new();
    let mut k: usize = 0;
    proof {
        assert(ends.take(0) =~= Seq::<(usize, usize)>::empty());
        assert forall|x: int, y: int| 0 <= x < num_nodes && 0 <= y < num_nodes implies (
        #[trigger] sets.same(x, y) <==> connected(ends.take(0), x, y)) by {
            if x == y {
                lemma_connected_reflexive(ends.take(0), x);
            }
            if connected(ends.take(0), x, y) {
                let path = choose|path: Seq<int>| is_path(ends.take(0), path, x, y);
                if path.len() > 1 {
                    assert(adjacent(ends.take(0), path[0], path[1]));
                }
            }
        }
    }
    while k < sorted.len() && edges.len() < num_nodes - 1
        invariant
            0 < num_nodes,
            k <= sorted.len(),
            ends == end_points(sorted@),
            forall|m: int|
                0 <= m < ends.len() ==> (#[trigger] ends[m]).0 < num_nodes && ends[m].1 < num_nodes,
            sets.wf(),
            sets.len() == num_nodes,
            sets.sets() == num_nodes - edges.len(),
            edges.len() <= num_nodes - 1,
            edges@ == greedy_tree(ends, k as nat),
            forall|m: int|
                0 <= m < edges.len() ==> (#[trigger] edges[m]).0 < num_nodes && edges[m].1
                    < num_nodes,
            forall|x: int, y: int|
                0 <= x < num_nodes && 0 <= y < num_nodes ==> (#[trigger] sets.same(x, y)
                    <==> connected(ends.take(k as int), x, y)),
        decreases sorted.len() - k,
    {
        let edge = sorted[k];
        let ghost before = sets;
        let ghost shorter = ends.take(k as int);
        proof {
            assert(ends[k as int] == (edge.i, edge.j));
            assert(ends.take(k + 1) =~= shorter.push((edge.i, edge.j)));
        }
        if sets.union(edge.i, edge.j) {
            edges.push((edge.i, edge.j));
        }
        proof {
            assert(before.same(edge.i as int, edge.j as int) <==> connected(
                shorter,
                edge.i as int,
                edge.j as int,
            ));
            assert forall|x: int, y: int| 0 <= x < num_nodes && 0 <= y < num_nodes implies (
            #[trigger] sets.same(x, y) <==> connected(ends.take(k + 1), x, y)) by {
                lemma_connected_push(shorter, (edge.i, edge.j), x, y);
                assert(before.same(x, y) <==> connected(shorter, x, y));
                assert(before.same(x, edge.i as int) <==> connected(shorter, x, edge.i as int));
                assert(before.same(x, edge.j as int) <==> connected(shorter, x, edge.j as int));
                assert(before.same(edge.i as int, y) <==> connected(shorter, edge.i as int, y));
                assert(before.same(edge.j as int, y) <==> connected(shorter, edge.j as int, y));
            }
        }
        k += 1;
    }
    proof {
        let all = end_points(candidates@);
        lemma_single_set(sets);
        assert forall|x: int, y: int| connected(ends, x, y) <==> #[trigger] connected(all, x, y) by {
            lemma_sorting_keeps_connections(candidates@, x, y);
        }
        if edges.len() == num_nodes - 1 {
            assert forall|x: int, y: int|
                0 <= x < num_nodes && 0 <= y < num_nodes implies #[trigger] connected(
                ends.take(k as int),
                x,
                y,
            ) by {
                assert(sets.same(x, y));
            }
            lemma_greedy_is_done(ends, k as nat, num_nodes as int);
            assert forall|x: int, y: int|
                0 <= x < num_nodes && 0 <= y < num_nodes implies #[trigger] connected(all, x, y) by {
                assert(connected(ends.take(k as int), x, y));
                lemma_connected_prefix(ends, k as int, x, y);
            }
        } else {
            assert(ends.take(k as int) =~= ends);
            if forall|x: int, y: int|
                0 <= x < num_nodes && 0 <= y < num_nodes ==> #[trigger] connected(all, x, y) {
                assert forall|x: int, y: int|
                    0 <= x < num_nodes && 0 <= y < num_nodes implies #[trigger] sets.same(
                    x,
                    y,
                ) by {
                    assert(connected(all, x, y));
                }
            }
        }
    }
    if edges.len() != num_nodes - 1 {
        return None;
    }
    let degree = degrees(num_nodes, &edges);
    proof {
        assert forall|x: int, y: int|
            0 <= x < num_nodes && 0 <= y < num_nodes implies #[trigger] connected(
            edges@,
            x,
            y,
        ) by {
            chow_liu_edges_span(candidates@, x, y);
        }
    }
    Some(ChowLiuTree { edges, degree })
}

proof fn lemma_connected_prefix(edges: Seq<(usize, usize)>, k: int, x: int, y: int)
    requires
        0 <= k <= edges.len(),
        connected(edges.take(k), x, y),
    ensures
        connected(edges, x, y),
    decreases edges.len() - k,
{
    if k < edges.len() {
        assert(edges.take(k + 1) =~= edges.take(k).push(edges[k]));
        lemma_connected_grows(edges.take(k), edges[k], x, y);
        lemma_connected_prefix(edges, k + 1, x, y);
    } else {
        assert(edges.take(k) =~= edges);
    }
}

/// How many edges meet at each node.
fn degrees(num_nodes: usize, edges: &Vec<(usize, usize)>) -> (degree: Vec<usize>)
    requires
        2 * edges.len() <= usize::MAX,
        forall|m: int|
            0 <= m < edges.len() ==> (#[trigger] edges[m]).0 < num_nodes && edges[m].1 < num_nodes,
    ensures
        degree.len() == num_nodes,
        forall|x: int| 0 <= x < num_nodes ==> #[trigger] degree[x] == degree_of(edges@, x),
{
    let mut degree: Vec<usize> = Vec::new();
    let mut i: usize = 0;
    while i < num_nodes
        invariant
            i <= num_nodes,
            degree.len() == i,
            forall|x: int| 0 <= x < i ==> #[trigger] degree[x] == 0,
        decreases num_nodes - i,
    {
        degree.push(0);
        i += 1;
    }
    let mut k: usize = 0;
    while k < edges.len()
        invariant
            k <= edges.len(),
            2 * edges.len() <= usize::MAX,
            degree.len() == num_nodes,
            forall|m: int|
                0 <= m < edges.len() ==> (#[trigger] edges[m]).0 < num_nodes && edges[m].1
                    < num_nodes,
            forall|x: int|
                0 <= x < num_nodes ==> #[trigger] degree[x] == degree_of(
                    edges@.take(k as int),
                    x,
                ),
        decreases edges.len() - k,
    {
        let (a, b) = edges[k];
        proof {
            lemma_degree_bound(edges@.take(k as int), a as int);
            lemma_degree_bound(edges@.take(k as int), b as int);
            assert(edges@.take(k + 1).drop_last() =~= edges@.take(k as int));
        }
        let at_a: usize = degree[a] + 1;
        degree.set(a, at_a);
        let at_b: usize = degree[b] + 1;
        degree.set(b, at_b);
        k += 1;
    }
    assert(edges@.take(edges.len() as int) =~= edges@);
    degree
}

/// Sorting does not change what the edges connect.
proof fn lemma_sorting_keeps_connections(candidates: Seq<WeightedEdge>, x: int, y: int)
    requires
        candidates.len() <= usize::MAX,
    ensures
        connected(end_points(by_weight(candidates)), x, y) <==> connected(
            end_points(candidates),
            x,
            y,
        ),
{
    let keys = candidates.map_values(|edge: WeightedEdge| weight_key(edge));
    let order = stable_order_of(keys);
    stable_order_exists(keys);
    let sorted = end_points(by_weight(candidates));
    let all = end_points(candidates);
    assert forall|u: int, v: int| #[trigger] adjacent(sorted, u, v) implies adjacent(all, u, v) by {
        let m = choose|m: int| 0 <= m < sorted.len() && joins(#[trigger] sorted[m], u, v);
        assert(joins(all[order[m] as int], u, v));
    }
    assert forall|u: int, v: int| #[trigger] adjacent(all, u, v) implies adjacent(sorted, u, v) by {
        let m = choose|m: int| 0 <= m < all.len() && joins(#[trigger] all[m], u, v);
        stable_order_is_complete(keys, order, m as usize);
        let k = order.index_of(m as usize);
        assert(joins(sorted[k], u, v));
    }
    if connected(sorted, x, y) {
        let path = choose|path: Seq<int>| is_path(sorted, path, x, y);
        assert(is_path(all, path, x, y));
    }
    if connected(all, x, y) {
        let path = choose|path: Seq<int>| is_path(all, path, x, y);
        assert(is_path(sorted, path, x, y));
    }
}

proof fn lemma_greedy_prefix(edges: Seq<(usize, usize)>, m: nat, n: nat)
    requires
        m <= n <= edges.len(),
    ensures
        greedy_tree(edges, m).len() <= greedy_tree(edges, n).len(),
        greedy_tree(edges, n).take(greedy_tree(edges, m).len() as int) == greedy_tree(edges, m),
    decreases n,
{
    if m < n {
        lemma_greedy_prefix(edges, m, (n - 1) as nat);
        let shorter = greedy_tree(edges, (n - 1) as nat);
        let longer = greedy_tree(edges, n);
        let len = greedy_tree(edges, m).len() as int;
        assert(longer.take(len) =~= shorter.take(len));
    } else {
        let t = greedy_tree(edges, n);
        assert(t.take(t.len() as int) =~= t);
    }
}

/// A Chow-Liu tree has no cycle: no edge links nodes that the edges before it
/// connect already.
pub proof fn chow_liu_edges_have_no_cycle(candidates: Seq<WeightedEdge>, k: int)
    requires
        candidates.len() <= usize::MAX,
        0 <= k < chow_liu_edges(candidates).len(),
    ensures
        !connected(
            chow_liu_edges(candidates).take(k),
            chow_liu_edges(candidates)[k].0 as int,
            chow_liu_edges(candidates)[k].1 as int,
        ),
{
    stable_order_exists(candidates.map_values(|edge: WeightedEdge| weight_key(edge)));
    lemma_greedy_has_no_cycle(end_points(by_weight(candidates)), candidates.len(), k);
}

proof fn lemma_greedy_has_no_cycle(edges: Seq<(usize, usize)>, n: nat, k: int)
    requires
        n <= edges.len(),
        0 <= k < greedy_tree(edges, n).len(),
    ensures
        !connected(
            greedy_tree(edges, n).take(k),
            greedy_tree(edges, n)[k].0 as int,
            greedy_tree(edges, n)[k].1 as int,
        ),
    decreases n,
{
    let m = (n - 1) as nat;
    let tree = greedy_tree(edges, n);
    let shorter = greedy_tree(edges, m);
    let edge = edges[n - 1];
    if k < shorter.len() {
        lemma_greedy_has_no_cycle(edges, m, k);
        assert(tree.take(k) =~= shorter.take(k));
        assert(tree[k] == shorter[k]);
    } else {
        lemma_greedy_connects(edges, m, edge.0 as int, edge.1 as int);
        assert(tree.take(k) =~= shorter);
        assert(tree[k] == edge);
    }
}

/// A Chow-Liu tree has maximum weight: the end points of every candidate are
/// connected by tree edges that all weigh at least as much as the candidate. So no
/// exchange of a tree edge for a candidate makes the tree heavier.
pub proof fn chow_liu_edges_are_heaviest(candidates: Seq<WeightedEdge>, m: int)
    requires
        candidates.len() <= usize::MAX,
        forall|k: int| 0 <= k < candidates.len() ==> !(#[trigger] candidates[k]).weight.is_nan(),
        0 <= m < candidates.len(),
    ensures
        exists|n: int|
            {
                &&& 0 <= n <= chow_liu_edges(candidates).len()
                &&& connected(
                    #[trigger] chow_liu_edges(candidates).take(n),
                    candidates[m].i as int,
                    candidates[m].j as int,
                )
                &&& all_at_least(
                    chow_liu_edges(candidates).take(n),
                    candidates,
                    candidates[m].weight,
                )
            },
{
    let keys = candidates.map_values(|edge: WeightedEdge| weight_key(edge));
    let order = stable_order_of(keys);
    stable_order_exists(keys);
    let sorted = by_weight(candidates);
    let ends = end_points(sorted);
    stable_order_is_complete(keys, order, m as usize);
    let k = order.index_of(m as usize);
    let n = (k + 1) as nat;
    let prefix = greedy_tree(ends, n);
    lemma_greedy_prefix(ends, n, candidates.len());
    let edge = candidates[m];
    assert(ends[k] == (edge.i, edge.j));
    let seen = ends.take(n as int);
    assert(joins(seen[k], edge.i as int, edge.j as int));
    assert(adjacent(seen, edge.i as int, edge.j as int));
    lemma_connected_reflexive(seen, edge.i as int);
    lemma_connected_step(seen, edge.i as int, edge.i as int, edge.j as int);
    lemma_greedy_connects(ends, n, edge.i as int, edge.j as int);
    assert forall|l: int| 0 <= l < n implies edge.weight.le((#[trigger] sorted[l]).weight) by {
        assert(candidates[order[l] as int] == sorted[l]);
        if l < k {
            assert(precedes(keys, order[l], order[k]));
        }
    }
    lemma_greedy_is_heavy(candidates, sorted, n, edge.weight);
    assert(chow_liu_edges(candidates).take(prefix.len() as int) == prefix);
}

/// Every edge is that of a candidate that weighs at least `weight`.
pub open spec fn all_at_least(
    edges: Seq<(usize, usize)>,
    candidates: Seq<WeightedEdge>,
    weight: Scalar,
) -> bool {
    forall|l: int|
        0 <= l < edges.len() ==> exists|k: int|
            0 <= k < candidates.len() && is_edge_of(#[trigger] edges[l], #[trigger] candidates[k])
                && weight.le(candidates[k].weight)
}

pub open spec fn is_edge_of(edge: (usize, usize), candidate: WeightedEdge) -> bool {
    edge == (candidate.i, candidate.j)
}

proof fn lemma_greedy_is_heavy(
    candidates: Seq<WeightedEdge>,
    sorted: Seq<WeightedEdge>,
    n: nat,
    weight: Scalar,
)
    requires
        candidates.len() <= usize::MAX,
        sorted == by_weight(candidates),
        n <= sorted.len(),
        forall|l: int| 0 <= l < n ==> weight.le((#[trigger] sorted[l]).weight),
    ensures
        all_at_least(greedy_tree(end_points(sorted), n), candidates, weight),
    decreases n,
{
    if n > 0 {
        let m = (n - 1) as nat;
        lemma_greedy_is_heavy(candidates, sorted, m, weight);
        let keys = candidates.map_values(|edge: WeightedEdge| weight_key(edge));
        let order = stable_order_of(keys);
        stable_order_exists(keys);
        let ends = end_points(sorted);
        let shorter = greedy_tree(ends, m);
        let tree = greedy_tree(ends, n);
        assert forall|l: int| 0 <= l < tree.len() implies exists|k: int|
            0 <= k < candidates.len() && is_edge_of(#[trigger] tree[l], #[trigger] candidates[k])
                && weight.le(candidates[k].weight) by {
            if l < shorter.len() {
                assert(tree[l] == shorter[l]);
            } else {
                let k = order[m as int] as int;
                assert(sorted[m as int] == candidates[k]);
                assert(is_edge_of(tree[l], candidates[k]));
            }
        }
    }
}

/// Number of joins among some unions.
pub open spec fn join_count(joined: Seq<bool>) -> nat
    decreases joined.len(),
{
    if joined.len() == 0 {
        0
    } else {
        join_count(joined.drop_last()) + if joined.last() {
            1nat
        } else {
            0nat
        }
    }
}

/// Of the unions on a disjoint set of `n` nodes, each in a set of its own at first, at most
/// `n - 1` join anything. `history` holds the sets before each union and after the last.
pub proof fn joins_are_bounded(history: Seq<DisjointSet>, joined: Seq<bool>, n: nat)
    requires
        n > 0,
        history.len() == joined.len() + 1,
        forall|k: int|
            0 <= k < history.len() ==> (#[trigger] history[k]).wf() && history[k].len() == n,
        history[0].sets() == n,
        forall|k: int|
            0 <= k < joined.len() ==> history[k + 1].sets() == history[k].sets() - (
            if #[trigger] joined[k] {
                1int
            } else {
                0int
            }),
    ensures
        join_count(joined) == n - history.last().sets(),
        join_count(joined) <= n - 1,
    decreases joined.len(),
{
    lemma_single_set(history.last());
    if joined.len() > 0 {
        let shorter = history.drop_last();
        let rest = joined.drop_last();
        assert forall|k: int| 0 <= k < shorter.len() implies (#[trigger] shorter[k]).wf()
            && shorter[k].len() == n by {
            assert(shorter[k] == history[k]);
        }
        assert forall|k: int| 0 <= k < rest.len() implies shorter[k + 1].sets()
            == shorter[k].sets() - (if #[trigger] rest[k] {
            1int
        } else {
            0int
        }) by {
            assert(rest[k] == joined[k]);
        }
        joins_are_bounded(shorter, rest, n);
        assert(joined[joined.len() - 1] == joined.last());
    }
}

/// A Chow-Liu tree connects whatever the candidates connect.
pub proof fn chow_liu_edges_span(candidates: Seq<WeightedEdge>, x: int, y: int)
    requires
        candidates.len() <= usize::MAX,
    ensures
        connected(chow_liu_edges(candidates), x, y) <==> connected(end_points(candidates), x, y),
{
    stable_order_exists(candidates.map_values(|edge: WeightedEdge| weight_key(edge)));
    let ends = end_points(by_weight(candidates));
    lemma_greedy_connects(ends, candidates.len(), x, y);
    assert(ends.take(candidates.len() as int) =~= ends);
    lemma_sorting_keeps_connections(candidates, x, y);
}

proof fn lemma_greedy_edges_are_given(edges: Seq<(usize, usize)>, n: nat, k: int) -> (m: int)
    requires
        n <= edges.len(),
        0 <= k < greedy_tree(edges, n).len(),
    ensures
        0 <= m < n,
        edges[m] == greedy_tree(edges, n)[k],
    decreases n,
{
    let shorter = greedy_tree(edges, (n - 1) as nat);
    if k < shorter.len() {
        lemma_greedy_edges_are_given(edges, (n - 1) as nat, k)
    } else {
        n - 1
    }
}

/// The edges of a Chow-Liu tree are candidates.
pub proof fn chow_liu_edges_are_candidates(candidates: Seq<WeightedEdge>, k: int)
    requires
        candidates.len() <= usize::MAX,
        0 <= k < chow_liu_edges(candidates).len(),
    ensures
        exists|m: int|
            0 <= m < candidates.len() && is_edge_of(
                chow_liu_edges(candidates)[k],
                #[trigger] candidates[m],
            ),
{
    let keys = candidates.map_values(|edge: WeightedEdge| weight_key(edge));
    let order = stable_order_of(keys);
    stable_order_exists(keys);
    let ends = end_points(by_weight(candidates));
    let m = lemma_greedy_edges_are_given(ends, candidates.len(), k);
    assert(is_edge_of(chow_liu_edges(candidates)[k], candidates[order[m] as int]));
}

/// An edge connects its end points.
pub proof fn connected_by_an_edge(edges: Seq<(usize, usize)>, k: int)
    requires
        0 <= k < edges.len(),
    ensures
        connected(edges, edges[k].0 as int, edges[k].1 as int),
{
    let x = edges[k].0 as int;
    let y = edges[k].1 as int;
    assert(joins(edges[k], x, y));
    assert(adjacent(edges, x, y));
    lemma_connected_reflexive(edges, x);
    lemma_connected_step(edges, x, x, y);
}

/// The candidates by weight are the candidates, each once: the heavier first, and equally
/// heavy ones in the order given.
pub proof fn heavier_candidates_come_first(candidates: Seq<WeightedEdge>) -> (at: Seq<int>)
    requires
        candidates.len() <= usize::MAX,
        forall|k: int| 0 <= k < candidates.len() ==> !(#[trigger] candidates[k]).weight.is_nan(),
    ensures
        at.len() == candidates.len(),
        by_weight(candidates).len() == candidates.len(),
        forall|k: int|
            0 <= k < at.len() ==> 0 <= #[trigger] at[k] < candidates.len() && by_weight(
                candidates,
            )[k] == candidates[at[k]],
        forall|k: int, l: int|
            0 <= k < l < at.len() ==> #[trigger] at[k] != #[trigger] at[l]
                && candidates[at[l]].weight.le(candidates[at[k]].weight) && (
            candidates[at[k]].weight.le(candidates[at[l]].weight) ==> at[k] < at[l]),
        forall|m: int| 0 <= m < candidates.len() ==> #[trigger] at.contains(m),
{
    let keys = candidates.map_values(|edge: WeightedEdge| weight_key(edge));
    crate::order::stable_order_exists(keys);
    let order = stable_order_of(keys);
    let at = Seq::new(order.len(), |k: int| order[k] as int);
    assert forall|k: int, l: int| 0 <= k < l < at.len() implies #[trigger] at[k]
        != #[trigger] at[l] && candidates[at[l]].weight.le(candidates[at[k]].weight) && (
    candidates[at[k]].weight.le(candidates[at[l]].weight) ==> at[k] < at[l]) by {
        assert(crate::order::precedes(keys, order[k], order[l]));
    }
    assert forall|m: int| 0 <= m < candidates.len() implies #[trigger] at.contains(m) by {
        crate::order::stable_order_is_complete(keys, order, m as usize);
        assert(at[order.index_of(m as usize)] == m);
    }
    at
}

/// The greedy tree takes an edge exactly where the edges before it leave its ends apart, and
/// takes them in order.
pub proof fn greedy_trees_take_what_joins(edges: Seq<(usize, usize)>, n: nat) -> (at: Seq<int>)
    requires
        n <= edges.len(),
    ensures
        lists_kept(
            at,
            n,
            |k: int| !connected(edges.take(k), edges[k].0 as int, edges[k].1 as int),
        ),
        greedy_tree(edges, n).len() == at.len(),
        forall|k: int| 0 <= k < at.len() ==> greedy_tree(edges, n)[k] == edges[#[trigger] at[k]],
    decreases n,
{
    let kept = |k: int| !connected(edges.take(k), edges[k].0 as int, edges[k].1 as int);
    if n == 0 {
        Seq::empty()
    } else {
        let m = (n - 1) as nat;
        let before = greedy_trees_take_what_joins(edges, m);
        crate::sequences::lemma_lists_one_more(before, m, kept);
        if kept(m as int) {
            let at = before.push(m as int);
            assert(at.last() == m);
            at
        } else {
            before
        }
    }
}

/// The degree of a node counts the ends of edges that lie on it.
pub proof fn degrees_count_ends(edges: Seq<(usize, usize)>, edge: (usize, usize), node: int)
    ensures
        degree_of(Seq::empty(), node) == 0,
        edge.0 == node && edge.1 != node ==> degree_of(edges.push(edge), node) == degree_of(
            edges,
            node,
        ) + 1,
        edge.1 == node && edge.0 != node ==> degree_of(edges.push(edge), node) == degree_of(
            edges,
            node,
        ) + 1,
        edge.0 != node && edge.1 != node ==> degree_of(edges.push(edge), node) == degree_of(
            edges,
            node,
        ),
{
    assert(edges.push(edge).drop_last() =~= edges);
}

/// Without edges nothing is connected but each node with itself.
pub proof fn edges_are_needed_to_connect(x: int, y: int)
    ensures
        connected(Seq::empty(), x, y) <==> x == y,
{
    let none = Seq::<(usize, usize)>::empty();
    if x == y {
        assert(is_path(none, seq![x], x, y));
    }
    if connected(none, x, y) {
        let path = choose|path: Seq<int>| is_path(none, path, x, y);
        if path.len() > 1 {
            assert(path[0] == path[0]);
            assert(adjacent(none, path[0], path[1]));
        }
    }
}

} // verus!
