//! Stable sorting by integer keys.
use vstd::prelude::*;

verus! {

/// A lexicographic sort key of up to five integers.
#[derive(Clone, Copy, Debug, PartialEq, Eq, Structural)]
pub struct SortKey {
    pub a: i128,
    pub b: i128,
    pub c: i128,
    pub d: i128,
    pub e: i128,
}

impl SortKey {
    /// A key of one integer.
    pub open spec fn spec_one(a: i128) -> SortKey {
        SortKey { a, b: 0, c: 0, d: 0, e: 0 }
    }

    /// A key of two integers.
    pub open spec fn spec_two(a: i128, b: i128) -> SortKey {
        SortKey { a, b, c: 0, d: 0, e: 0 }
    }

    #[verifier::when_used_as_spec(spec_one)]
    pub fn one(a: i128) -> (k: SortKey)
        ensures
            k == SortKey::spec_one(a),
    {
        SortKey { a, b: 0, c: 0, d: 0, e: 0 }
    }

    #[verifier::when_used_as_spec(spec_two)]
    pub fn two(a: i128, b: i128) -> (k: SortKey)
        ensures
            k == SortKey::spec_two(a, b),
    {
        SortKey { a, b, c: 0, d: 0, e: 0 }
    }

    /// Lexicographic `self < other`.
    pub open spec fn spec_before(self, other: SortKey) -> bool {
        ||| self.a < other.a
        ||| self.a == other.a && self.b < other.b
        ||| self.a == other.a && self.b == other.b && self.c < other.c
        ||| self.a == other.a && self.b == other.b && self.c == other.c && self.d < other.d
        ||| self.a == other.a && self.b == other.b && self.c == other.c && self.d == other.d
            && self.e < other.e
    }

    /// Lexicographic `self < other`.
    #[verifier::when_used_as_spec(spec_before)]
    pub fn before(self, other: SortKey) -> (r: bool)
        ensures
            r == self.spec_before(other),
    {
        if self.a != other.a {
            self.a < other.a
        } else if self.b != other.b {
            self.b < other.b
        } else if self.c != other.c {
            self.c < other.c
        } else if self.d != other.d {
            self.d < other.d
        } else {
            self.e < other.e
        }
    }
}

/// Index `x` comes before index `y`: by key, and by position where keys agree.
pub open spec fn precedes(keys: Seq<SortKey>, x: usize, y: usize) -> bool {
    keys[x as int].before(keys[y as int]) || (keys[x as int] == keys[y as int] && x < y)
}

/// `order` lists every index of `keys` once, by increasing key, equal keys in
/// their original order.
pub open spec fn is_stable_order(keys: Seq<SortKey>, order: Seq<usize>) -> bool {
    &&& order.len() == keys.len()
    &&& forall|i: int| 0 <= i < order.len() ==> (#[trigger] order[i]) < keys.len()
    &&& forall|i: int, j: int|
        0 <= i < j < order.len() ==> precedes(keys, #[trigger] order[i], #[trigger] order[j])
}

/// Like [`is_stable_order`], for the indices `lo..hi` alone.
spec fn is_run(keys: Seq<SortKey>, lo: int, hi: int, run: Seq<usize>) -> bool {
    &&& run.len() == hi - lo
    &&& forall|i: int| 0 <= i < run.len() ==> lo <= #[trigger] run[i] < hi
    &&& forall|i: int, j: int|
        0 <= i < j < run.len() ==> precedes(keys, #[trigger] run[i], #[trigger] run[j])
}

fn index_precedes(keys: &Vec<SortKey>, x: usize, y: usize) -> (r: bool)
    requires
        x < keys.len(),
        y < keys.len(),
    ensures
        r == precedes(keys@, x, y),
{
    if keys[x].before(keys[y]) {
        true
    } else if keys[y].before(keys[x]) {
        false
    } else {
        x < y
    }
}

/// Merges two neighbouring sorted runs.
fn merge_runs(
    keys: &Vec<SortKey>,
    Ghost(lo): Ghost<int>,
    Ghost(mid): Ghost<int>,
    Ghost(hi): Ghost<int>,
    left: Vec<usize>,
    right: Vec<usize>,
) -> (out: Vec<usize>)
    requires
        0 <= lo <= mid <= hi <= keys.len(),
        is_run(keys@, lo, mid, left@),
        is_run(keys@, mid, hi, right@),
    ensures
        is_run(keys@, lo, hi, out@),
{
    let mut out: Vec<usize> = Vec::new();
    let mut i: usize = 0;
    let mut j: usize = 0;
    while i < left.len() || j < right.len()
        invariant
            0 <= lo <= mid <= hi <= keys.len(),
            is_run(keys@, lo, mid, left@),
            is_run(keys@, mid, hi, right@),
            i <= left.len(),
            j <= right.len(),
            out.len() == i + j,
            forall|k: int| 0 <= k < out.len() ==> lo <= #[trigger] out[k] < hi,
            forall|k: int, l: int|
                0 <= k < l < out.len() ==> precedes(keys@, #[trigger] out[k], #[trigger] out[l]),
            forall|k: int, x: int|
                0 <= k < out.len() && i <= x < left.len() ==> precedes(
                    keys@,
                    #[trigger] out[k],
                    #[trigger] left[x],
                ),
            forall|k: int, y: int|
                0 <= k < out.len() && j <= y < right.len() ==> precedes(
                    keys@,
                    #[trigger] out[k],
                    #[trigger] right[y],
                ),
        decreases left.len() - i + right.len() - j,
    {
        let from_left: bool = if i >= left.len() {
            false
        } else if j >= right.len() {
            true
        } else {
            index_precedes(keys, left[i], right[j])
        };
        if from_left {
            assert(forall|y: int| j <= y < right.len() ==> precedes(keys@, left[i as int], #[trigger] right[y]));
            out.push(left[i]);
            i += 1;
        } else {
            assert(forall|x: int| i <= x < left.len() ==> precedes(keys@, right[j as int], #[trigger] left[x]));
            out.push(right[j]);
            j += 1;
        }
    }
    out
}

fn sort_run(keys: &Vec<SortKey>, lo: usize, hi: usize) -> (out: Vec<usize>)
    requires
        lo <= hi <= keys.len(),
    ensures
        is_run(keys@, lo as int, hi as int, out@),
    decreases hi - lo,
{
    if hi - lo == 0 {
        Vec::new()
    } else if hi - lo == 1 {
        let mut out: Vec<usize> = Vec::new();
        out.push(lo);
        out
    } else {
        let mid: usize = lo + (hi - lo) / 2;
        let left = sort_run(keys, lo, mid);
        let right = sort_run(keys, mid, hi);
        merge_runs(keys, Ghost(lo as int), Ghost(mid as int), Ghost(hi as int), left, right)
    }
}

/// The one stable order of the keys.
pub open spec fn stable_order_of(keys: Seq<SortKey>) -> Seq<usize> {
    choose|order: Seq<usize>| is_stable_order(keys, order)
}

/// The indices of `keys` by increasing key; equal keys keep their order.
pub fn stable_order(keys: &Vec<SortKey>) -> (order: Vec<usize>)
    ensures
        is_stable_order(keys@, order@),
        order@ == stable_order_of(keys@),
{
    let order = sort_run(keys, 0, keys.len());
    proof {
        assert(is_stable_order(keys@, order@));
        stable_order_is_unique(keys@, order@, stable_order_of(keys@));
    }
    order
}

/// A stable order misses no index.
pub proof fn stable_order_is_complete(keys: Seq<SortKey>, order: Seq<usize>, x: usize)
    requires
        is_stable_order(keys, order),
        x < keys.len(),
    ensures
        order.contains(x),
{
    let ints = Seq::new(order.len(), |i: int| order[i] as int);
    assert(ints.no_duplicates());
    ints.unique_seq_to_set();
    vstd::set_lib::lemma_int_range(0, keys.len() as int);
    let range = vstd::set_lib::set_int_range(0, keys.len() as int);
    assert(ints.to_set().subset_of(range));
    vstd::set_lib::lemma_subset_equality(ints.to_set(), range);
    assert(range.contains(x as int));
    assert(ints.contains(x as int));
    let i = ints.index_of(x as int);
    assert(order[i] == x);
}

/// There is only one stable order of given keys.
pub proof fn stable_order_is_unique(keys: Seq<SortKey>, left: Seq<usize>, right: Seq<usize>)
    requires
        is_stable_order(keys, left),
        is_stable_order(keys, right),
    ensures
        left == right,
{
    assert forall|i: int| 0 <= i < left.len() implies left[i] == right[i] by {
        stable_orders_agree_up_to(keys, left, right, i);
    }
}

proof fn stable_orders_agree_up_to(
    keys: Seq<SortKey>,
    left: Seq<usize>,
    right: Seq<usize>,
    i: int,
)
    requires
        is_stable_order(keys, left),
        is_stable_order(keys, right),
        0 <= i < left.len(),
    ensures
        left[i] == right[i],
    decreases i,
{
    assert forall|k: int| 0 <= k < i implies left[k] == right[k] by {
        stable_orders_agree_up_to(keys, left, right, k);
    }
    stable_order_is_complete(keys, right, left[i]);
    stable_order_is_complete(keys, left, right[i]);
    let p = right.index_of(left[i]);
    let q = left.index_of(right[i]);
    if p < i {
        assert(left[p] == left[i]);
    }
    if q < i {
        assert(right[q] == right[i]);
    }
}

/// Any keys have a stable order.
pub proof fn stable_order_exists(keys: Seq<SortKey>)
    requires
        keys.len() <= usize::MAX,
    ensures
        is_stable_order(keys, stable_order_of(keys)),
{
    let order = lemma_build_order(keys, keys.len());
    assert(is_stable_order(keys, order));
}

proof fn lemma_build_order(keys: Seq<SortKey>, n: nat) -> (order: Seq<usize>)
    requires
        n <= keys.len() <= usize::MAX,
    ensures
        is_run(keys, 0, n as int, order),
    decreases n,
{
    if n == 0 {
        Seq::empty()
    } else {
        let x = (n - 1) as usize;
        let shorter = lemma_build_order(keys, (n - 1) as nat);
        let p = lemma_split_point(keys, shorter, x, shorter.len() as int);
        let order = shorter.insert(p, x);
        assert forall|i: int, j: int| 0 <= i < j < order.len() implies precedes(
            keys,
            #[trigger] order[i],
            #[trigger] order[j],
        ) by {
            if i < p && j > p {
                assert(precedes(keys, shorter[i], shorter[j - 1]));
            } else if i > p {
                assert(precedes(keys, shorter[i - 1], shorter[j - 1]));
            } else if j < p {
                assert(precedes(keys, shorter[i], shorter[j]));
            }
        }
        order
    }
}

/// Where index `x` belongs among the first `n` of a sorted run without it.
proof fn lemma_split_point(keys: Seq<SortKey>, run: Seq<usize>, x: usize, n: int) -> (p: int)
    requires
        0 <= n <= run.len(),
        is_run(keys, 0, run.len() as int, run),
        x == run.len(),
        run.len() < keys.len(),
    ensures
        0 <= p <= n,
        forall|i: int| 0 <= i < p ==> precedes(keys, #[trigger] run[i], x),
        forall|i: int| p <= i < n ==> precedes(keys, x, #[trigger] run[i]),
    decreases n,
{
    if n == 0 {
        0
    } else if precedes(keys, run[n - 1], x) {
        assert forall|i: int| 0 <= i < n implies precedes(keys, #[trigger] run[i], x) by {
            if i < n - 1 {
                assert(precedes(keys, run[i], run[n - 1]));
            }
        }
        n
    } else {
        lemma_split_point(keys, run, x, n - 1)
    }
}

/// Keys compare by their first difference: a smaller first number decides, else a smaller
/// second one, and so on. Of two different keys exactly one comes first.
pub proof fn keys_compare_by_their_first_difference(left: SortKey, right: SortKey)
    ensures
        left.a < right.a ==> left.before(right),
        left.a == right.a && left.b < right.b ==> left.before(right),
        left.a == right.a && left.b == right.b && left.c < right.c ==> left.before(right),
        left.a == right.a && left.b == right.b && left.c == right.c && left.d < right.d
            ==> left.before(right),
        left.a == right.a && left.b == right.b && left.c == right.c && left.d == right.d && left.e
            < right.e ==> left.before(right),
        left != right ==> left.before(right) != right.before(left),
        !left.before(left),
{
}

/// A stable order never puts a greater key first, and keeps the order of equal ones.
pub proof fn stable_orders_are_sorted(keys: Seq<SortKey>, order: Seq<usize>, i: int, j: int)
    requires
        is_stable_order(keys, order),
        0 <= i < j < order.len(),
    ensures
        order.len() == keys.len(),
        !keys[order[j] as int].before(keys[order[i] as int]),
        keys[order[i] as int] == keys[order[j] as int] ==> order[i] < order[j],
        order[i] != order[j],
{
    assert(precedes(keys, order[i], order[j]));
}

} // verus!
