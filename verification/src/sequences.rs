//! Facts and helpers on sequences that the other modules share.
use vstd::prelude::*;

verus! {

/// Filtering one more element.
pub proof fn lemma_filter_take<A>(s: Seq<A>, i: int, p: spec_fn(A) -> bool)
    requires
        0 <= i < s.len(),
    ensures
        s.take(i + 1).filter(p) == if p(s[i]) {
            s.take(i).filter(p).push(s[i])
        } else {
            s.take(i).filter(p)
        },
        s.take(i).filter(p).len() <= i,
{
    reveal(Seq::filter);
    assert(s.take(i + 1).drop_last() =~= s.take(i));
    s.take(i).lemma_filter_len(p);
}

/// The last `n` elements, or all where there are fewer.
pub open spec fn last_n<A>(s: Seq<A>, n: int) -> Seq<A> {
    if s.len() <= n {
        s
    } else {
        s.skip(s.len() - n)
    }
}

/// The first `n` elements, or all where there are fewer.
pub open spec fn first_n<A>(s: Seq<A>, n: int) -> Seq<A> {
    if s.len() <= n {
        s
    } else {
        s.take(n)
    }
}

/// The whole sequence is its own longest prefix.
pub proof fn lemma_take_all<A>(s: Seq<A>)
    ensures
        s.take(s.len() as int) == s,
        s.take(0) == Seq::<A>::empty(),
{
}

/// The indices below `n` that satisfy `p`, in increasing order.
pub open spec fn indices_where(n: nat, p: spec_fn(int) -> bool) -> Seq<usize>
    decreases n,
{
    if n == 0 {
        Seq::empty()
    } else if p(n - 1) {
        indices_where((n - 1) as nat, p).push((n - 1) as usize)
    } else {
        indices_where((n - 1) as nat, p)
    }
}

/// Number of indices below `n` that satisfy `p`.
pub open spec fn count_where(n: nat, p: spec_fn(int) -> bool) -> nat
    decreases n,
{
    if n == 0 {
        0
    } else {
        count_where((n - 1) as nat, p) + if p(n - 1) {
            1nat
        } else {
            0nat
        }
    }
}

pub proof fn lemma_count_bound(n: nat, p: spec_fn(int) -> bool)
    ensures
        count_where(n, p) <= n,
    decreases n,
{
    if n > 0 {
        lemma_count_bound((n - 1) as nat, p);
    }
}

pub proof fn lemma_count_same(n: nat, p: spec_fn(int) -> bool, q: spec_fn(int) -> bool)
    requires
        forall|i: int| 0 <= i < n ==> #[trigger] p(i) == q(i),
    ensures
        count_where(n, p) == count_where(n, q),
    decreases n,
{
    if n > 0 {
        lemma_count_same((n - 1) as nat, p, q);
    }
}

/// What `indices_where` lists: exactly the indices that satisfy `p`, each once, in
/// increasing order.
pub proof fn lemma_indices_where(n: nat, p: spec_fn(int) -> bool)
    requires
        n <= usize::MAX + 1,
    ensures
        indices_where(n, p).len() == count_where(n, p),
        indices_where(n, p).len() <= n,
        forall|k: int|
            0 <= k < indices_where(n, p).len() ==> (#[trigger] indices_where(n, p)[k]) < n && p(
                indices_where(n, p)[k] as int,
            ),
        forall|k: int, l: int|
            0 <= k < l < indices_where(n, p).len() ==> (#[trigger] indices_where(n, p)[k])
                < #[trigger] indices_where(n, p)[l],
        forall|i: int|
            0 <= i < n && #[trigger] p(i) ==> indices_where(n, p).contains(i as usize),
    decreases n,
{
    if n > 0 {
        let m = (n - 1) as nat;
        lemma_indices_where(m, p);
        let shorter = indices_where(m, p);
        let longer = indices_where(n, p);
        assert forall|i: int| 0 <= i < n && #[trigger] p(i) implies longer.contains(i as usize) by {
            if i < m {
                assert(shorter.contains(i as usize));
                let k = shorter.index_of(i as usize);
                assert(longer[k] == i as usize);
            } else {
                assert(longer[longer.len() - 1] == i as usize);
            }
        }
    }
}

/// `ids` strictly increases.
pub open spec fn strictly_increasing(ids: Seq<u64>) -> bool {
    forall|i: int, j: int| 0 <= i < j < ids.len() ==> ids[i] < ids[j]
}

/// Two strictly increasing sequences of the same ids are equal.
pub proof fn lemma_increasing_is_unique(left: Seq<u64>, right: Seq<u64>)
    requires
        strictly_increasing(left),
        strictly_increasing(right),
        forall|id: u64| left.contains(id) <==> right.contains(id),
    ensures
        left == right,
    decreases left.len(),
{
    if left.len() == 0 {
        if right.len() > 0 {
            assert(right.contains(right[0]));
            assert(left.contains(right[0]));
        }
        assert(left =~= right);
    } else {
        assert(left.contains(left.last()));
        assert(right.contains(left.last()));
        assert(right.contains(right.last()));
        assert(left.contains(right.last()));
        let p = right.index_of(left.last());
        let q = left.index_of(right.last());
        assert(left.last() == right.last());
        let l = left.drop_last();
        let r = right.drop_last();
        assert forall|id: u64| l.contains(id) <==> r.contains(id) by {
            if l.contains(id) {
                let i = l.index_of(id);
                assert(left[i] == id);
                assert(left.contains(id));
                assert(right.contains(id));
                let j = right.index_of(id);
                assert(j != right.len() - 1);
                assert(r[j] == id);
            }
            if r.contains(id) {
                let i = r.index_of(id);
                assert(right[i] == id);
                assert(right.contains(id));
                assert(left.contains(id));
                let j = left.index_of(id);
                assert(j != left.len() - 1);
                assert(l[j] == id);
            }
        }
        lemma_increasing_is_unique(l, r);
        assert(left =~= l.push(left.last()));
        assert(right =~= r.push(right.last()));
    }
}

/// Whether `ids` holds `id`.
pub fn contains_id(ids: &[u64], id: u64) -> (found: bool)
    ensures
        found == ids@.contains(id),
{
    let mut i: usize = 0;
    while i < ids.len()
        invariant
            i <= ids.len(),
            forall|j: int| 0 <= j < i ==> ids[j] != id,
        decreases ids.len() - i,
    {
        if ids[i] == id {
            return true;
        }
        i += 1;
    }
    false
}

/// The last `n` ids, or all where there are fewer.
pub fn last_ids(ids: &[u64], n: usize) -> (tail: Vec<u64>)
    ensures
        tail@ == last_n(ids@, n as int),
{
    let mut tail: Vec<u64> = Vec::new();
    let first: usize = if ids.len() <= n { 0 } else { ids.len() - n };
    let mut i: usize = first;
    while i < ids.len()
        invariant
            first <= i <= ids.len(),
            first == if ids.len() <= n { 0 } else { ids.len() - n },
            tail@ == ids@.subrange(first as int, i as int),
        decreases ids.len() - i,
    {
        tail.push(ids[i]);
        i += 1;
    }
    assert(ids@.subrange(first as int, ids.len() as int) =~= last_n(ids@, n as int));
    tail
}

/// Adds an id to a strictly increasing list, which keeps its order; an id that is
/// there already changes nothing.
pub fn insert_id(ids: &mut Vec<u64>, id: u64)
    requires
        strictly_increasing(old(ids)@),
    ensures
        strictly_increasing(final(ids)@),
        forall|x: u64| final(ids)@.contains(x) <==> old(ids)@.contains(x) || x == id,
        final(ids).len() <= old(ids).len() + 1,
{
    let ghost before = ids@;
    let mut lo: usize = 0;
    while lo < ids.len() && ids[lo] < id
        invariant
            lo <= ids.len(),
            ids@ == before,
            forall|j: int| 0 <= j < lo ==> before[j] < id,
        decreases ids.len() - lo,
    {
        lo += 1;
    }
    if lo < ids.len() && ids[lo] == id {
        return ;
    }
    ids.insert(lo, id);
    proof {
        let after = ids@;
        assert(forall|j: int| lo <= j < before.len() ==> before[j] > id) by {
            assert forall|j: int| lo <= j < before.len() implies before[j] > id by {
                assert(before[lo as int] <= before[j]);
            }
        }
        assert forall|x: u64| after.contains(x) <==> before.contains(x) || x == id by {
            if before.contains(x) {
                let j = before.index_of(x);
                if j < lo {
                    assert(after[j] == x);
                } else {
                    assert(after[j + 1] == x);
                }
            }
            if x == id {
                assert(after[lo as int] == x);
            }
            if after.contains(x) {
                let j = after.index_of(x);
                if j < lo {
                    assert(before[j] == x);
                } else if j > lo {
                    assert(before[j - 1] == x);
                }
            }
        }
    }
}

/// The ids of `ids`, each once, in increasing order.
pub open spec fn is_sorted_set_of(sorted: Seq<u64>, ids: Seq<u64>) -> bool {
    strictly_increasing(sorted) && forall|id: u64| sorted.contains(id) <==> ids.contains(id)
}

/// The distinct ids of `ids` in increasing order.
pub open spec fn sorted_set_of(ids: Seq<u64>) -> Seq<u64> {
    choose|sorted: Seq<u64>| is_sorted_set_of(sorted, ids)
}

/// Inserts an id where it belongs.
proof fn lemma_insert_in_order(sorted: Seq<u64>, id: u64) -> (after: Seq<u64>)
    requires
        strictly_increasing(sorted),
        !sorted.contains(id),
    ensures
        strictly_increasing(after),
        after.len() == sorted.len() + 1,
        forall|x: u64| after.contains(x) <==> sorted.contains(x) || x == id,
    decreases sorted.len(),
{
    if sorted.len() == 0 || sorted.last() < id {
        let after = sorted.push(id);
        assert forall|x: u64| after.contains(x) <==> sorted.contains(x) || x == id by {
            lemma_push_contains(sorted, id, x);
        }
        after
    } else {
        let rest = sorted.drop_last();
        let last = sorted.last();
        assert(sorted[sorted.len() - 1] == last);
        assert forall|x: u64| sorted.contains(x) <==> rest.contains(x) || x == last by {
            assert(sorted =~= rest.push(last));
            lemma_push_contains(rest, last, x);
        }
        let front = lemma_insert_in_order(rest, id);
        let after = front.push(last);
        assert forall|x: u64| after.contains(x) <==> sorted.contains(x) || x == id by {
            lemma_push_contains(front, last, x);
        }
        assert forall|i: int, j: int| 0 <= i < j < after.len() implies after[i] < after[j] by {
            if j == front.len() {
                assert(front.contains(front[i]));
                if front[i] != id {
                    let k = rest.index_of(front[i]);
                    assert(sorted[k] == front[i]);
                    assert(sorted[k] < sorted[sorted.len() - 1]);
                }
            }
        }
        after
    }
}

proof fn lemma_push_contains(list: Seq<u64>, id: u64, x: u64)
    ensures
        list.push(id).contains(x) <==> list.contains(x) || x == id,
{
    let longer = list.push(id);
    if list.contains(x) {
        assert(longer[list.index_of(x)] == x);
    }
    assert(longer[list.len() as int] == id);
    if longer.contains(x) {
        let k = longer.index_of(x);
        if k < list.len() {
            assert(list[k] == x);
        }
    }
}

proof fn lemma_sorted_set_exists(ids: Seq<u64>) -> (sorted: Seq<u64>)
    ensures
        is_sorted_set_of(sorted, ids),
    decreases ids.len(),
{
    if ids.len() == 0 {
        Seq::empty()
    } else {
        let rest = ids.drop_last();
        let before = lemma_sorted_set_exists(rest);
        assert forall|x: u64| ids.contains(x) <==> rest.contains(x) || x == ids.last() by {
            assert(ids =~= rest.push(ids.last()));
            lemma_push_contains(rest, ids.last(), x);
        }
        if before.contains(ids.last()) {
            before
        } else {
            lemma_insert_in_order(before, ids.last())
        }
    }
}

/// Every list of ids has a sorted set.
pub proof fn lemma_sorted_set_of(ids: Seq<u64>)
    ensures
        is_sorted_set_of(sorted_set_of(ids), ids),
{
    let sorted = lemma_sorted_set_exists(ids);
    assert(is_sorted_set_of(sorted, ids));
}

/// The distinct ids of `ids` in increasing order.
pub fn sorted_set(ids: &[u64]) -> (sorted: Vec<u64>)
    ensures
        is_sorted_set_of(sorted@, ids@),
        sorted@ == sorted_set_of(ids@),
        sorted.len() <= ids.len(),
{
    let mut sorted: Vec<u64> = Vec::new();
    let mut i: usize = 0;
    while i < ids.len()
        invariant
            i <= ids.len(),
            strictly_increasing(sorted@),
            sorted.len() <= i,
            forall|id: u64| sorted@.contains(id) <==> ids@.take(i as int).contains(id),
        decreases ids.len() - i,
    {
        insert_id(&mut sorted, ids[i]);
        proof {
            let shorter = ids@.take(i as int);
            let longer = ids@.take(i + 1);
            assert(longer =~= shorter.push(ids[i as int]));
            assert forall|id: u64| longer.contains(id) <==> shorter.contains(id) || id
                == ids[i as int] by {
                if shorter.contains(id) {
                    let k = shorter.index_of(id);
                    assert(longer[k] == id);
                }
                if id == ids[i as int] {
                    assert(longer[i as int] == id);
                }
                if longer.contains(id) {
                    let k = longer.index_of(id);
                    if k < i {
                        assert(shorter[k] == id);
                    }
                }
            }
        }
        i += 1;
    }
    proof {
        lemma_take_all(ids@);
        assert(is_sorted_set_of(sorted@, ids@));
        lemma_increasing_is_unique(sorted@, sorted_set_of(ids@));
    }
    sorted
}

/// How replacing one element changes the size of a selection.
pub proof fn lemma_filter_update<A>(s: Seq<A>, k: int, value: A, p: spec_fn(A) -> bool)
    requires
        0 <= k < s.len(),
    ensures
        s.update(k, value).filter(p).len() + (if p(s[k]) {
            1int
        } else {
            0int
        }) == s.filter(p).len() + (if p(value) {
            1int
        } else {
            0int
        }),
    decreases s.len(),
{
    reveal(Seq::filter);
    let t = s.update(k, value);
    if k == s.len() - 1 {
        assert(t.drop_last() =~= s.drop_last());
    } else {
        assert(t.drop_last() =~= s.drop_last().update(k, value));
        lemma_filter_update(s.drop_last(), k, value, p);
    }
}

/// How adding one element changes the size of a selection.
pub proof fn lemma_filter_insert<A>(s: Seq<A>, k: int, value: A, p: spec_fn(A) -> bool)
    requires
        0 <= k <= s.len(),
    ensures
        s.insert(k, value).filter(p).len() == s.filter(p).len() + (if p(value) {
            1int
        } else {
            0int
        }),
    decreases s.len(),
{
    reveal(Seq::filter);
    let t = s.insert(k, value);
    if k == s.len() {
        assert(t.drop_last() =~= s);
    } else {
        assert(t.drop_last() =~= s.drop_last().insert(k, value));
        lemma_filter_insert(s.drop_last(), k, value, p);
    }
}

/// Two selections that exclude each other do not select more than there is.
pub proof fn lemma_filters_disjoint<A>(s: Seq<A>, p: spec_fn(A) -> bool, q: spec_fn(A) -> bool)
    requires
        forall|k: int| 0 <= k < s.len() ==> !(p(#[trigger] s[k]) && q(s[k])),
    ensures
        s.filter(p).len() + s.filter(q).len() <= s.len(),
    decreases s.len(),
{
    reveal(Seq::filter);
    if s.len() > 0 {
        assert forall|k: int| 0 <= k < s.drop_last().len() implies !(p(
            #[trigger] s.drop_last()[k],
        ) && q(s.drop_last()[k])) by {
            assert(s.drop_last()[k] == s[k]);
        }
        lemma_filters_disjoint(s.drop_last(), p, q);
        assert(!(p(s[s.len() - 1]) && q(s[s.len() - 1])));
    }
}

/// A filtered sequence lists elements of the sequence, in the same order.
pub proof fn lemma_filter_positions<A>(s: Seq<A>, p: spec_fn(A) -> bool) -> (at: Seq<int>)
    ensures
        at.len() == s.filter(p).len(),
        forall|i: int| 0 <= i < at.len() ==> 0 <= #[trigger] at[i] < s.len() && s[at[i]] == s.filter(
            p,
        )[i] && p(s[at[i]]),
        forall|i: int, j: int| 0 <= i < j < at.len() ==> at[i] < at[j],
        forall|k: int| 0 <= k < s.len() && p(s[k]) ==> at.contains(k),
    decreases s.len(),
{
    reveal(Seq::filter);
    if s.len() == 0 {
        Seq::empty()
    } else {
        let before = lemma_filter_positions(s.drop_last(), p);
        if p(s.last()) {
            let at = before.push(s.len() - 1);
            assert forall|k: int| 0 <= k < s.len() && p(s[k]) implies at.contains(k) by {
                if k < s.len() - 1 {
                    assert(s.drop_last()[k] == s[k]);
                    assert(before.contains(k));
                    let i = before.index_of(k);
                    assert(at[i] == k);
                } else {
                    assert(at[at.len() - 1] == k);
                }
            }
            at
        } else {
            assert forall|k: int| 0 <= k < s.len() && p(s[k]) implies before.contains(k) by {
                assert(s.drop_last()[k] == s[k]);
            }
            before
        }
    }
}

/// Filtering first never makes a later selection larger.
pub proof fn lemma_filter_twice<A>(s: Seq<A>, p: spec_fn(A) -> bool, q: spec_fn(A) -> bool)
    ensures
        s.filter(p).filter(q).len() <= s.filter(q).len(),
    decreases s.len(),
{
    reveal(Seq::filter);
    if s.len() > 0 {
        lemma_filter_twice(s.drop_last(), p, q);
        if p(s.last()) {
            let head = s.drop_last().filter(p);
            assert(s.filter(p) =~= head.push(s.last()));
            assert(s.filter(p).drop_last() =~= head);
        }
    }
}

/// `at` lists the indices below `n` that are kept, each once, in increasing order.
pub open spec fn lists_kept(at: Seq<int>, n: nat, kept: spec_fn(int) -> bool) -> bool {
    &&& forall|k: int| 0 <= k < at.len() ==> 0 <= #[trigger] at[k] < n && kept(at[k])
    &&& forall|k: int, l: int| 0 <= k < l < at.len() ==> #[trigger] at[k] < #[trigger] at[l]
    &&& forall|i: int| 0 <= i < n && #[trigger] kept(i) ==> at.contains(i)
}

/// One more index, kept or not.
pub proof fn lemma_lists_one_more(at: Seq<int>, n: nat, kept: spec_fn(int) -> bool)
    requires
        lists_kept(at, n, kept),
    ensures
        kept(n as int) ==> lists_kept(at.push(n as int), n + 1, kept),
        !kept(n as int) ==> lists_kept(at, n + 1, kept),
{
    if kept(n as int) {
        let longer = at.push(n as int);
        assert forall|i: int| 0 <= i < n + 1 && #[trigger] kept(i) implies longer.contains(i) by {
            if i < n {
                assert(at.contains(i));
                assert(longer[at.index_of(i)] == i);
            } else {
                assert(longer[at.len() as int] == i);
            }
        }
    }
}

/// A selection is as long as there are positions that it selects.
pub proof fn lemma_filter_count<A>(s: Seq<A>, p: spec_fn(A) -> bool)
    ensures
        s.filter(p).len() == count_where(s.len(), |k: int| p(s[k])),
    decreases s.len(),
{
    reveal(Seq::filter);
    if s.len() > 0 {
        let rest = s.drop_last();
        lemma_filter_count(rest, p);
        lemma_count_same(rest.len(), |k: int| p(rest[k]), |k: int| p(s[k]));
    }
}

/// A selection holds exactly the elements that it selects.
pub proof fn lemma_filter_holds<A>(s: Seq<A>, p: spec_fn(A) -> bool, x: A)
    ensures
        s.filter(p).contains(x) <==> s.contains(x) && p(x),
{
    let at = lemma_filter_positions(s, p);
    if s.filter(p).contains(x) {
        let i = s.filter(p).index_of(x);
        assert(s[at[i]] == x);
    }
    if s.contains(x) && p(x) {
        let k = s.index_of(x);
        assert(p(s[k]));
        assert(at.contains(k));
        assert(s.filter(p)[at.index_of(k)] == x);
    }
}

/// The distinct ids of a list without repetitions are as many as the list is long.
pub proof fn lemma_sorted_set_len(ids: Seq<u64>)
    requires
        ids.no_duplicates(),
    ensures
        sorted_set_of(ids).len() == ids.len(),
{
    lemma_sorted_set_of(ids);
    let sorted = sorted_set_of(ids);
    assert(sorted.no_duplicates());
    sorted.unique_seq_to_set();
    ids.unique_seq_to_set();
    assert(sorted.to_set() =~= ids.to_set());
}

} // verus!
