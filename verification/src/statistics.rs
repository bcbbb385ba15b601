//! Medians, and the robust measures that are built on them. The numbers themselves are
//! computed by the caller.
use crate::order::{is_stable_order, stable_order, stable_order_of, SortKey};
use crate::scalar::Scalar;
use crate::sequences::{lemma_take_all, lists_kept};
use vstd::prelude::*;

verus! {

/// The keys of some numbers in the total order.
pub open spec fn total_keys(values: Seq<Scalar>) -> Seq<SortKey> {
    values.map_values(|value: Scalar| SortKey::one(value.total_rank()))
}

/// The number in a place when the numbers are sorted.
pub open spec fn ranked(values: Seq<Scalar>, place: int) -> Scalar {
    values[stable_order_of(total_keys(values))[place] as int]
}

/// `found` is the median of some numbers: the middle one, or the midpoint of the middle two.
pub open spec fn is_median<H>(midpoint: H, values: Seq<Scalar>, found: Option<Scalar>) -> bool where
    H: Fn(Scalar, Scalar) -> Scalar,
 {
    let middle = values.len() as int / 2;
    if values.len() == 0 {
        found is None
    } else if values.len() % 2 == 0 {
        found matches Some(median) && call_ensures(
            midpoint,
            (ranked(values, middle - 1), ranked(values, middle)),
            median,
        )
    } else {
        found == Some(ranked(values, middle))
    }
}

/// The median of some numbers; `midpoint` is half the sum of two.
pub fn median<H>(values: &Vec<Scalar>, midpoint: &H) -> (found: Option<Scalar>) where
    H: Fn(Scalar, Scalar) -> Scalar,

    requires
        forall|a: Scalar, b: Scalar| call_requires(*midpoint, (a, b)),
    ensures
        is_median(*midpoint, values@, found),
{
    let count: usize = values.len();
    if count == 0 {
        return None;
    }
    let mut keys: Vec<SortKey> = Vec::new();
    let mut i: usize = 0;
    while i < count
        invariant
            i <= count,
            count == values.len(),
            keys@ == total_keys(values@.take(i as int)),
        decreases count - i,
    {
        keys.push(SortKey::one(values[i].total_rank()));
        assert(keys@ =~= total_keys(values@.take(i + 1)));
        i += 1;
    }
    proof {
        lemma_take_all(values@);
    }
    let order = stable_order(&keys);
    assert(is_stable_order(keys@, order@));
    let middle: usize = count / 2;
    assert(order@[middle as int] < count);
    if count % 2 == 0 {
        assert(order@[middle - 1] < count);
        Some(midpoint(values[order[middle - 1]], values[order[middle]]))
    } else {
        Some(values[order[middle]])
    }
}

/// Whether a distance counts: finite and positive.
pub open spec fn is_distance(value: Scalar) -> bool {
    value.is_finite() && Scalar::zero().lt(value)
}

/// The pairs of points, those with the first one first.
pub open spec fn pairs(count: nat) -> Seq<(usize, usize)> {
    pairs_before(count, count, 0)
}

/// The pairs whose first point comes before `first`, and those of `first` with the points
/// before `second`.
pub open spec fn pairs_before(count: nat, first: nat, second: nat) -> Seq<(usize, usize)>
    decreases first, second,
{
    if second > first + 1 {
        pairs_before(count, first, (second - 1) as nat).push(
            (first as usize, (second - 1) as usize),
        )
    } else if first > 0 {
        pairs_before(count, (first - 1) as nat, count)
    } else {
        Seq::empty()
    }
}

/// The distances of the pairs.
pub open spec fn are_distances<D>(
    distance: D,
    pairs: Seq<(usize, usize)>,
    distances: Seq<Scalar>,
) -> bool where D: Fn(usize, usize) -> Scalar {
    &&& distances.len() == pairs.len()
    &&& forall|k: int|
        0 <= k < pairs.len() ==> call_ensures(
            distance,
            (pairs[k].0, pairs[k].1),
            #[trigger] distances[k],
        )
}

/// The distances that count.
pub open spec fn counted_distances(distances: Seq<Scalar>) -> Seq<Scalar>
    decreases distances.len(),
{
    if distances.len() == 0 {
        Seq::empty()
    } else if is_distance(distances.last()) {
        counted_distances(distances.drop_last()).push(distances.last())
    } else {
        counted_distances(distances.drop_last())
    }
}

/// `scale` is the median distance between two of the points, zero where none counts.
pub open spec fn is_median_distance<D, H>(
    distance: D,
    midpoint: H,
    count: nat,
    scale: Scalar,
) -> bool where D: Fn(usize, usize) -> Scalar, H: Fn(Scalar, Scalar) -> Scalar {
    exists|distances: Seq<Scalar>, found: Option<Scalar>|
        #![trigger
            are_distances(distance, pairs(count), distances),
            is_median(midpoint, counted_distances(distances), found)
        ]
        are_distances(distance, pairs(count), distances) && is_median(
            midpoint,
            counted_distances(distances),
            found,
        ) && scale == (match found {
            Some(value) => value,
            None => Scalar::zero(),
        })
}

/// The median distance between two of `count` points; `distance` is that of two points.
pub fn median_pairwise_distance<D, H>(count: usize, distance: &D, midpoint: &H) -> (scale:
    Scalar) where D: Fn(usize, usize) -> Scalar, H: Fn(Scalar, Scalar) -> Scalar
    requires
        forall|a: usize, b: usize| a < count && b < count ==> call_requires(*distance, (a, b)),
        forall|a: Scalar, b: Scalar| call_requires(*midpoint, (a, b)),
    ensures
        is_median_distance(*distance, *midpoint, count as nat, scale),
{
    let mut kept: Vec<Scalar> = Vec::new();
    let ghost mut distances: Seq<Scalar> = Seq::empty();
    let mut first: usize = 0;
    while first < count
        invariant
            first <= count,
            forall|a: usize, b: usize| a < count && b < count ==> call_requires(*distance, (a, b)),
            are_distances(*distance, pairs_before(count as nat, first as nat, 0), distances),
            kept@ == counted_distances(distances),
        decreases count - first,
    {
        let mut second: usize = first + 1;
        assert(pairs_before(count as nat, first as nat, second as nat) == pairs_before(
            count as nat,
            first as nat,
            0,
        ));
        while second < count
            invariant
                first < second <= count,
                forall|a: usize, b: usize|
                    a < count && b < count ==> call_requires(*distance, (a, b)),
                are_distances(
                    *distance,
                    pairs_before(count as nat, first as nat, second as nat),
                    distances,
                ),
                kept@ == counted_distances(distances),
            decreases count - second,
        {
            let value = distance(first, second);
            let ghost before = distances;
            proof {
                distances = distances.push(value);
                assert(distances.drop_last() =~= before);
                let grown = pairs_before(count as nat, first as nat, (second + 1) as nat);
                assert forall|k: int| 0 <= k < grown.len() implies call_ensures(
                    *distance,
                    (grown[k].0, grown[k].1),
                    #[trigger] distances[k],
                ) by {
                    if k < before.len() {
                        assert(distances[k] == before[k]);
                    }
                }
            }
            if value.is_finite() && Scalar::zero().lt(value) {
                kept.push(value);
            }
            second += 1;
        }
        assert(pairs_before(count as nat, (first + 1) as nat, 0) == pairs_before(
            count as nat,
            first as nat,
            count as nat,
        ));
        first += 1;
    }
    let found = median(&kept, midpoint);
    assert(are_distances(*distance, pairs(count as nat), distances));
    assert(is_median(*midpoint, counted_distances(distances), found));
    match found {
        Some(value) => value,
        None => Scalar::zero(),
    }
}

/// The scales that fits without one of the points give, and how far they are off.
pub open spec fn are_left_out<F, D>(
    fit_without: F,
    deviation: D,
    reference: Scalar,
    scales: Seq<Scalar>,
    deviations: Seq<Scalar>,
) -> bool where F: Fn(usize) -> Option<Scalar>, D: Fn(Scalar, Scalar) -> Scalar {
    &&& scales.len() == deviations.len()
    &&& forall|k: int|
        0 <= k < scales.len() ==> is_distance(#[trigger] scales[k]) && call_ensures(
            fit_without,
            (k as usize,),
            Some(scales[k]),
        ) && call_ensures(deviation, (scales[k], reference), deviations[k])
}

/// `spread` is the median deviation of the scale when one point is left out. There is none
/// with fewer than four points, without a positive, finite reference, or where a fit
/// without one of the points has no positive, finite scale.
pub open spec fn is_left_out_spread<F, D, H>(
    fit_without: F,
    deviation: D,
    midpoint: H,
    count: nat,
    reference: Scalar,
    spread: Option<Scalar>,
) -> bool where
    F: Fn(usize) -> Option<Scalar>,
    D: Fn(Scalar, Scalar) -> Scalar,
    H: Fn(Scalar, Scalar) -> Scalar,
 {
    if count < 4 || !is_distance(reference) {
        spread is None
    } else {
        exists|scales: Seq<Scalar>, deviations: Seq<Scalar>| #[trigger]
            are_left_out(fit_without, deviation, reference, scales, deviations) && (
            if scales.len() == count {
                is_median(midpoint, deviations, spread)
            } else {
                &&& scales.len() < count
                &&& spread is None
                &&& fails_without(fit_without, scales.len() as usize)
            })
    }
}

/// The fit without one of the points has no positive, finite scale.
pub open spec fn fails_without<F>(fit_without: F, k: usize) -> bool where
    F: Fn(usize) -> Option<Scalar>,
 {
    exists|answer: Option<Scalar>| #[trigger]
        call_ensures(fit_without, (k,), answer) && (answer matches Some(scale)
            ==> !is_distance(scale))
}

/// How much the scale of a fit to `count` points depends on any one of them.
pub fn leave_one_out_log_scale_mad<F, D, H>(
    count: usize,
    reference: Scalar,
    fit_without: &F,
    deviation: &D,
    midpoint: &H,
) -> (spread: Option<Scalar>) where
    F: Fn(usize) -> Option<Scalar>,
    D: Fn(Scalar, Scalar) -> Scalar,
    H: Fn(Scalar, Scalar) -> Scalar,

    requires
        forall|k: usize| k < count ==> call_requires(*fit_without, (k,)),
        forall|a: Scalar, b: Scalar| call_requires(*deviation, (a, b)),
        forall|a: Scalar, b: Scalar| call_requires(*midpoint, (a, b)),
    ensures
        is_left_out_spread(
            *fit_without,
            *deviation,
            *midpoint,
            count as nat,
            reference,
            spread,
        ),
{
    if count < 4 || !(reference.is_finite() && Scalar::zero().lt(reference)) {
        return None;
    }
    let ghost mut scales: Seq<Scalar> = Seq::empty();
    let mut deviations: Vec<Scalar> = Vec::new();
    let mut k: usize = 0;
    while k < count
        invariant
            4 <= count,
            k <= count,
            is_distance(reference),
            forall|j: usize| j < count ==> call_requires(*fit_without, (j,)),
            forall|a: Scalar, b: Scalar| call_requires(*deviation, (a, b)),
            scales.len() == k,
            are_left_out(*fit_without, *deviation, reference, scales, deviations@),
        decreases count - k,
    {
        let answer = fit_without(k);
        let usable: Option<Scalar> = match answer {
            Some(scale) => if scale.is_finite() && Scalar::zero().lt(scale) {
                Some(scale)
            } else {
                None
            },
            None => None,
        };
        match usable {
            None => {
                assert(fails_without(*fit_without, k));
                return None;
            },
            Some(scale) => {
                let off = deviation(scale, reference);
                let ghost before = scales;
                let ghost earlier = deviations@;
                deviations.push(off);
                proof {
                    scales = scales.push(scale);
                    assert forall|j: int| 0 <= j < scales.len() implies is_distance(
                        #[trigger] scales[j],
                    ) && call_ensures(*fit_without, (j as usize,), Some(scales[j]))
                        && call_ensures(
                        *deviation,
                        (scales[j], reference),
                        deviations@[j],
                    ) by {
                        if j < k {
                            assert(scales[j] == before[j]);
                            assert(deviations@[j] == earlier[j]);
                        }
                    }
                }
            },
        }
        k += 1;
    }
    median(&deviations, midpoint)
}

/// The ranked values are the values, each once, in increasing order.
pub proof fn ranks_sort_the_values(values: Seq<Scalar>) -> (at: Seq<int>)
    requires
        values.len() <= usize::MAX,
    ensures
        at.len() == values.len(),
        forall|k: int|
            0 <= k < at.len() ==> 0 <= #[trigger] at[k] < values.len() && ranked(values, k)
                == values[at[k]],
        forall|k: int, l: int|
            0 <= k < l < at.len() ==> #[trigger] at[k] != #[trigger] at[l]
                && values[at[k]].total_rank() <= values[at[l]].total_rank(),
        forall|i: int| 0 <= i < values.len() ==> #[trigger] at.contains(i),
{
    let keys = total_keys(values);
    crate::order::stable_order_exists(keys);
    let order = stable_order_of(keys);
    let at = Seq::new(order.len(), |k: int| order[k] as int);
    assert forall|k: int, l: int| 0 <= k < l < at.len() implies #[trigger] at[k]
        != #[trigger] at[l] && values[at[k]].total_rank() <= values[at[l]].total_rank() by {
        assert(crate::order::precedes(keys, order[k], order[l]));
    }
    assert forall|i: int| 0 <= i < values.len() implies #[trigger] at.contains(i) by {
        crate::order::stable_order_is_complete(keys, order, i as usize);
        assert(at[order.index_of(i as usize)] == i);
    }
    at
}

/// A median exists wherever there is a value. It is the middle one of the sorted values, and
/// of an even number the midpoint of the two in the middle; none of either half lies on the
/// wrong side of it.
pub proof fn medians_split_the_values<H>(
    midpoint: H,
    values: Seq<Scalar>,
    found: Option<Scalar>,
) -> (at: Seq<int>) where H: Fn(Scalar, Scalar) -> Scalar
    requires
        values.len() <= usize::MAX,
        is_median(midpoint, values, found),
    ensures
        found is Some <==> values.len() > 0,
        at.len() == values.len(),
        forall|k: int| 0 <= k < at.len() ==> 0 <= #[trigger] at[k] < values.len(),
        forall|k: int, l: int|
            0 <= k < l < at.len() ==> #[trigger] at[k] != #[trigger] at[l]
                && values[at[k]].total_rank() <= values[at[l]].total_rank(),
        found matches Some(median) ==> {
            let n = values.len() as int;
            &&& n % 2 == 1 ==> median == values[at[n / 2]]
            &&& n % 2 == 0 ==> call_ensures(
                midpoint,
                (values[at[n / 2 - 1]], values[at[n / 2]]),
                median,
            )
        },
{
    ranks_sort_the_values(values)
}

/// The pairs of `count` things: every two of them once, the earlier one first, in order.
pub proof fn pairs_are_all_pairs(count: nat)
    requires
        count <= usize::MAX,
    ensures
        forall|a: usize, b: usize|
            #[trigger] pairs(count).contains((a, b)) <==> a < b < count,
        forall|k: int, l: int|
            0 <= k < l < pairs(count).len() ==> {
                let p = #[trigger] pairs(count)[k];
                let q = #[trigger] pairs(count)[l];
                p.0 < q.0 || (p.0 == q.0 && p.1 < q.1)
            },
{
    lemma_pairs_before(count, count, 0);
}

proof fn lemma_pairs_before(count: nat, first: nat, second: nat)
    requires
        count <= usize::MAX,
        first <= count,
        second <= count,
    ensures
        forall|a: usize, b: usize| #[trigger]
            pairs_before(count, first, second).contains((a, b)) <==> a < b < count && (a < first
                || (a == first && b < second)),
        forall|k: int, l: int|
            0 <= k < l < pairs_before(count, first, second).len() ==> {
                let p = #[trigger] pairs_before(count, first, second)[k];
                let q = #[trigger] pairs_before(count, first, second)[l];
                p.0 < q.0 || (p.0 == q.0 && p.1 < q.1)
            },
    decreases first, second,
{
    let all = pairs_before(count, first, second);
    if second > first + 1 {
        let before = pairs_before(count, first, (second - 1) as nat);
        lemma_pairs_before(count, first, (second - 1) as nat);
        let last = (first as usize, (second - 1) as usize);
        assert forall|a: usize, b: usize| #[trigger]
            all.contains((a, b)) <==> a < b < count && (a < first || (a == first && b < second)) by {
            if all.contains((a, b)) {
                let k = all.index_of((a, b));
                if k < before.len() {
                    assert(before[k] == (a, b));
                    assert(before.contains((a, b)));
                }
            }
            if a < b < count && (a < first || (a == first && b < second)) {
                if before.contains((a, b)) {
                    assert(all[before.index_of((a, b))] == (a, b));
                } else {
                    assert(all[before.len() as int] == (a, b));
                }
            }
        }
        assert forall|k: int, l: int| 0 <= k < l < all.len() implies ({
            let p = #[trigger] all[k];
            let q = #[trigger] all[l];
            p.0 < q.0 || (p.0 == q.0 && p.1 < q.1)
        }) by {
            if l < before.len() {
                assert(all[k] == before[k] && all[l] == before[l]);
            } else {
                assert(all[k] == before[k]);
                assert(before.contains((all[k].0, all[k].1)));
            }
        }
    } else if first > 0 {
        lemma_pairs_before(count, (first - 1) as nat, count);
        assert(all == pairs_before(count, (first - 1) as nat, count));
        assert forall|a: usize, b: usize| #[trigger]
            all.contains((a, b)) <==> a < b < count && (a < first || (a == first && b < second)) by {
            assert(pairs_before(count, (first - 1) as nat, count).contains((a, b)) <==> a < b
                < count && (a < first - 1 || (a == first - 1 && b < count)));
        }
    } else {
        assert(all =~= Seq::empty());
    }
}

/// The distances that count are the finite positive ones, in order.
pub proof fn counted_distances_are_positive(distances: Seq<Scalar>) -> (at: Seq<int>)
    ensures
        lists_kept(
            at,
            distances.len(),
            |k: int| distances[k].is_finite() && Scalar::zero().lt(distances[k]),
        ),
        counted_distances(distances).len() == at.len(),
        forall|k: int|
            0 <= k < at.len() ==> counted_distances(distances)[k] == distances[#[trigger] at[k]],
    decreases distances.len(),
{
    let kept = |k: int| distances[k].is_finite() && Scalar::zero().lt(distances[k]);
    if distances.len() == 0 {
        Seq::empty()
    } else {
        let rest = distances.drop_last();
        let n = rest.len() as int;
        let before = counted_distances_are_positive(rest);
        let kept_before = |k: int| rest[k].is_finite() && Scalar::zero().lt(rest[k]);
        assert forall|k: int| 0 <= k < n implies #[trigger] kept(k) == kept_before(k) by {}
        assert(lists_kept(before, rest.len(), kept));
        crate::sequences::lemma_lists_one_more(before, rest.len(), kept);
        assert forall|k: int| 0 <= k < before.len() implies rest[#[trigger] before[k]]
            == distances[before[k]] by {}
        if kept(n) {
            let at = before.push(n);
            assert(at.last() == n);
            at
        } else {
            before
        }
    }
}

/// A leave-one-out spread is only given for at least four items and a finite positive
/// reference, and only where every fit without one of them has a finite positive scale; it
/// is then the median of their deviations.
pub proof fn spreads_need_every_fit<F, D, H>(
    fit_without: F,
    deviation: D,
    midpoint: H,
    count: nat,
    reference: Scalar,
    spread: Option<Scalar>,
) -> (found: (Seq<Scalar>, Seq<Scalar>)) where
    F: Fn(usize) -> Option<Scalar>,
    D: Fn(Scalar, Scalar) -> Scalar,
    H: Fn(Scalar, Scalar) -> Scalar,

    requires
        count <= usize::MAX,
        is_left_out_spread(fit_without, deviation, midpoint, count, reference, spread),
    ensures
        spread is Some ==> {
            let (scales, deviations) = found;
            &&& count >= 4
            &&& reference.is_finite()
            &&& Scalar::zero().lt(reference)
            &&& scales.len() == count
            &&& deviations.len() == count
            &&& is_median(midpoint, deviations, spread)
            &&& forall|k: int|
                0 <= k < count ==> (#[trigger] scales[k]).is_finite() && Scalar::zero().lt(
                    scales[k],
                ) && call_ensures(fit_without, (k as usize,), Some(scales[k])) && call_ensures(
                    deviation,
                    (scales[k], reference),
                    deviations[k],
                )
        },
        spread is None && count >= 4 && reference.is_finite() && Scalar::zero().lt(reference)
            ==> exists|k: usize, answer: Option<Scalar>|
            k < count && #[trigger] call_ensures(fit_without, (k,), answer) && (
            answer matches Some(scale) ==> !scale.is_finite() || !Scalar::zero().lt(scale)),
{
    if count >= 4 && is_distance(reference) {
        let (scales, deviations) = choose|scales: Seq<Scalar>, deviations: Seq<Scalar>| #[trigger]
            are_left_out(fit_without, deviation, reference, scales, deviations) && (
            if scales.len() == count {
                is_median(midpoint, deviations, spread)
            } else {
                &&& scales.len() < count
                &&& spread is None
                &&& fails_without(fit_without, scales.len() as usize)
            });
        if spread is None {
            let k = scales.len() as usize;
            let answer = choose|answer: Option<Scalar>| #[trigger]
                call_ensures(fit_without, (k,), answer) && (answer matches Some(scale)
                    ==> !is_distance(scale));
            assert(k < count && call_ensures(fit_without, (k,), answer));
        }
        (scales, deviations)
    } else {
        (Seq::empty(), Seq::empty())
    }
}

/// The median distance of some things is that over the finite positive distances between
/// every two of them, and zero where there is none.
pub proof fn median_distances_cover_every_pair<D, H>(
    distance: D,
    midpoint: H,
    count: nat,
    scale: Scalar,
) -> (found: (Seq<Scalar>, Option<Scalar>)) where
    D: Fn(usize, usize) -> Scalar,
    H: Fn(Scalar, Scalar) -> Scalar,

    requires
        is_median_distance(distance, midpoint, count, scale),
    ensures
        found.0.len() == pairs(count).len(),
        forall|k: int|
            0 <= k < found.0.len() ==> call_ensures(
                distance,
                (pairs(count)[k].0, pairs(count)[k].1),
                #[trigger] found.0[k],
            ),
        is_median(midpoint, counted_distances(found.0), found.1),
        found.1 matches Some(value) ==> scale == value,
        found.1 is None ==> scale == Scalar::zero(),
{
    choose|distances: Seq<Scalar>, found: Option<Scalar>|
        #![trigger
            are_distances(distance, pairs(count), distances),
            is_median(midpoint, counted_distances(distances), found)
        ]
        are_distances(distance, pairs(count), distances) && is_median(
            midpoint,
            counted_distances(distances),
            found,
        ) && scale == (match found {
            Some(value) => value,
            None => Scalar::zero(),
        })
}

} // verus!
