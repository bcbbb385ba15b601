//! Random index samples for robust estimation.
use rand::rngs::StdRng;
use rand::{Rng, SeedableRng};
use vstd::prelude::*;

verus! {

/// The pseudo-random generator of the `rand` crate. Verus sees nothing of its state.
#[verifier::external_type_specification]
#[verifier::external_body]
pub struct ExStdRng(StdRng);

/// `StdRng::seed_from_u64`: a generator whose stream the seed determines. Which
/// stream that is depends on the version and configuration of the `rand` crate, whose
/// documentation calls it deterministic but not reproducible, so nothing is claimed of
/// the generator.
#[verifier::external_body]
fn seeded_generator(seed: u64) -> (rng: StdRng) {
    StdRng::seed_from_u64(seed)
}

/// `Rng::gen_range` over `0..count`, on a copy of the generator: some index below
/// `count`, and the generator after the draw. Which index is left unsaid: it rests on
/// the seed, on the draws before it, on the generator behind the seed, and on the
/// machine, since an index of this type is drawn from as many bits as a pointer has. An
/// empty range would panic.
#[verifier::external_body]
fn draw_below(rng: &StdRng, count: usize) -> (drawn: (usize, StdRng))
    requires
        count > 0,
    ensures
        drawn.0 < count,
{
    let mut after = rng.clone();
    let index = after.gen_range(0..count);
    (index, after)
}

/// A call of [`seeded_generator`] with this seed can give this generator.
pub closed spec fn is_seeded(seed: u64, rng: StdRng) -> bool {
    call_ensures(seeded_generator, (seed,), rng)
}

/// A call of [`draw_below`] with this generator and this bound can give this index and
/// leave the generator in this state.
pub closed spec fn is_draw(before: StdRng, count: usize, index: usize, after: StdRng) -> bool {
    call_ensures(draw_below, (&before, count), (index, after))
}

/// Calls a function that makes a generator, and keeps the relation to its seed.
fn call_seed<S>(make: S, seed: u64) -> (rng: StdRng) where S: Fn(u64) -> StdRng
    requires
        call_requires(make, (seed,)),
    ensures
        call_ensures(make, (seed,), rng),
{
    make(seed)
}

/// Calls a function that draws an index, and keeps the relation to what it was given.
fn call_draw<D>(draw: D, rng: &StdRng, count: usize) -> (drawn: (usize, StdRng)) where
    D: Fn(&StdRng, usize) -> (usize, StdRng),

    requires
        call_requires(draw, (rng, count)),
    ensures
        call_ensures(draw, (rng, count), drawn),
{
    draw(rng, count)
}

/// A generator with the given seed.
fn seed_rng(seed: u64) -> (rng: StdRng)
    ensures
        is_seeded(seed, rng),
{
    call_seed(seeded_generator, seed)
}

/// One index below `count`.
fn draw_index(rng: &mut StdRng, count: usize) -> (index: usize)
    requires
        count > 0,
    ensures
        index < count,
        is_draw(*old(rng), count, index, *final(rng)),
{
    let (index, after) = call_draw(draw_below, rng, count);
    *rng = after;
    index
}

/// Number of attempts to draw distinct indices.
pub const SAMPLE_ATTEMPTS: usize = 64;

/// No two indices are equal.
pub open spec fn no_repeats(indices: Seq<usize>) -> bool {
    forall|i: int, j: int| 0 <= i < j < indices.len() ==> indices[i] != indices[j]
}

/// The indices are below `count`, and no two are equal.
pub open spec fn is_distinct_sample(sample: Seq<usize>, count: int) -> bool {
    &&& forall|i: int| 0 <= i < sample.len() ==> (#[trigger] sample[i]) < count
    &&& no_repeats(sample)
}

/// The generator gives these indices below `count` one after the other.
pub open spec fn are_draws(
    before: StdRng,
    count: usize,
    indices: Seq<usize>,
    after: StdRng,
) -> bool
    decreases indices.len(),
{
    if indices.len() == 0 {
        before == after
    } else {
        exists|middle: StdRng|
            are_draws(before, count, indices.drop_last(), middle) && #[trigger] is_draw(
                middle,
                count,
                indices.last(),
                after,
            )
    }
}

/// The generator gives these attempts one after the other, `size` indices in each.
pub open spec fn are_attempts(
    before: StdRng,
    count: usize,
    size: nat,
    attempts: Seq<Seq<usize>>,
    after: StdRng,
) -> bool
    decreases attempts.len(),
{
    if attempts.len() == 0 {
        before == after
    } else {
        exists|middle: StdRng|
            are_attempts(before, count, size, attempts.drop_last(), middle)
                && attempts.last().len() == size && #[trigger] are_draws(
                middle,
                count,
                attempts.last(),
                after,
            )
    }
}

/// `sample` is the first attempt without repeats, which is also the last one made; it is
/// missing where the attempts are used up and every one had repeats.
pub open spec fn is_settled(attempts: Seq<Seq<usize>>, sample: Option<Seq<usize>>) -> bool {
    &&& 0 < attempts.len() <= SAMPLE_ATTEMPTS
    &&& forall|k: int| 0 <= k < attempts.len() - 1 ==> !no_repeats(#[trigger] attempts[k])
    &&& match sample {
        Some(indices) => indices == attempts.last() && no_repeats(indices),
        None => attempts.len() == SAMPLE_ATTEMPTS && !no_repeats(attempts.last()),
    }
}

/// What sampling `size` indices below `count` gives and how it moves the generator. With
/// too few indices to choose from nothing is drawn.
pub open spec fn is_sampling(
    before: StdRng,
    count: usize,
    size: nat,
    sample: Option<Seq<usize>>,
    after: StdRng,
) -> bool {
    if count < size {
        sample is None && after == before
    } else {
        exists|attempts: Seq<Seq<usize>>| #[trigger]
            are_attempts(before, count, size, attempts, after) && is_settled(attempts, sample)
    }
}

/// One more draw at the end of others.
proof fn lemma_draw_more(
    before: StdRng,
    count: usize,
    indices: Seq<usize>,
    middle: StdRng,
    index: usize,
    after: StdRng,
)
    requires
        are_draws(before, count, indices, middle),
        is_draw(middle, count, index, after),
    ensures
        are_draws(before, count, indices.push(index), after),
{
    assert(indices.push(index).drop_last() =~= indices);
    assert(is_draw(middle, count, indices.push(index).last(), after));
}

/// One more attempt at the end of others.
proof fn lemma_attempt_more(
    before: StdRng,
    count: usize,
    size: nat,
    attempts: Seq<Seq<usize>>,
    middle: StdRng,
    attempt: Seq<usize>,
    after: StdRng,
)
    requires
        are_attempts(before, count, size, attempts, middle),
        attempt.len() == size,
        are_draws(middle, count, attempt, after),
    ensures
        are_attempts(before, count, size, attempts.push(attempt), after),
{
    assert(attempts.push(attempt).drop_last() =~= attempts);
    assert(are_draws(middle, count, attempts.push(attempt).last(), after));
}

/// Draws three different indices below `count`, giving up after a fixed number of
/// attempts.
pub fn sample_three(count: usize, rng: &mut StdRng) -> (sample: Option<[usize; 3]>)
    ensures
        count < 3 ==> sample is None,
        sample matches Some(indices) ==> is_distinct_sample(indices@, count as int),
        is_sampling(
            *old(rng),
            count,
            3,
            match sample {
                Some(indices) => Some(indices@),
                None => None,
            },
            *final(rng),
        ),
{
    if count < 3 {
        return None;
    }
    let ghost start = *rng;
    let ghost mut attempts: Seq<Seq<usize>> = Seq::empty();
    let mut attempt: usize = 0;
    while attempt < SAMPLE_ATTEMPTS
        invariant
            count >= 3,
            start == *old(rng),
            attempt <= SAMPLE_ATTEMPTS,
            attempts.len() == attempt,
            are_attempts(start, count, 3, attempts, *rng),
            forall|k: int| 0 <= k < attempt ==> !no_repeats(#[trigger] attempts[k]),
        decreases SAMPLE_ATTEMPTS - attempt,
    {
        let ghost middle = *rng;
        let ghost mut drawn: Seq<usize> = Seq::empty();
        let ghost at = *rng;
        let first: usize = draw_index(rng, count);
        proof {
            lemma_draw_more(middle, count, drawn, at, first, *rng);
            drawn = drawn.push(first);
        }
        let ghost at = *rng;
        let second: usize = draw_index(rng, count);
        proof {
            lemma_draw_more(middle, count, drawn, at, second, *rng);
            drawn = drawn.push(second);
        }
        let ghost at = *rng;
        let third: usize = draw_index(rng, count);
        proof {
            lemma_draw_more(middle, count, drawn, at, third, *rng);
            drawn = drawn.push(third);
        }
        proof {
            lemma_attempt_more(start, count, 3, attempts, middle, drawn, *rng);
            attempts = attempts.push(drawn);
        }
        if first != second && first != third && second != third {
            let sample = [first, second, third];
            assert(sample@ =~= drawn);
            assert(is_settled(attempts, Some(sample@)));
            return Some(sample);
        }
        proof {
            assert(drawn[0] == drawn[1] || drawn[0] == drawn[2] || drawn[1] == drawn[2]);
        }
        attempt += 1;
    }
    assert(is_settled(attempts, None));
    None
}

/// Draws two different indices below `count`, giving up after a fixed number of
/// attempts.
pub fn sample_two(count: usize, rng: &mut StdRng) -> (sample: Option<[usize; 2]>)
    ensures
        count < 2 ==> sample is None,
        sample matches Some(indices) ==> is_distinct_sample(indices@, count as int),
        is_sampling(
            *old(rng),
            count,
            2,
            match sample {
                Some(indices) => Some(indices@),
                None => None,
            },
            *final(rng),
        ),
{
    if count < 2 {
        return None;
    }
    let ghost start = *rng;
    let ghost mut attempts: Seq<Seq<usize>> = Seq::empty();
    let mut attempt: usize = 0;
    while attempt < SAMPLE_ATTEMPTS
        invariant
            count >= 2,
            start == *old(rng),
            attempt <= SAMPLE_ATTEMPTS,
            attempts.len() == attempt,
            are_attempts(start, count, 2, attempts, *rng),
            forall|k: int| 0 <= k < attempt ==> !no_repeats(#[trigger] attempts[k]),
        decreases SAMPLE_ATTEMPTS - attempt,
    {
        let ghost middle = *rng;
        let ghost mut drawn: Seq<usize> = Seq::empty();
        let ghost at = *rng;
        let first: usize = draw_index(rng, count);
        proof {
            lemma_draw_more(middle, count, drawn, at, first, *rng);
            drawn = drawn.push(first);
        }
        let ghost at = *rng;
        let second: usize = draw_index(rng, count);
        proof {
            lemma_draw_more(middle, count, drawn, at, second, *rng);
            drawn = drawn.push(second);
        }
        proof {
            lemma_attempt_more(start, count, 2, attempts, middle, drawn, *rng);
            attempts = attempts.push(drawn);
        }
        if first != second {
            let sample = [first, second];
            assert(sample@ =~= drawn);
            assert(is_settled(attempts, Some(sample@)));
            return Some(sample);
        }
        proof {
            assert(drawn[0] == drawn[1]);
        }
        attempt += 1;
    }
    assert(is_settled(attempts, None));
    None
}

/// The samples are distinct indices below `count`, `size` in each.
pub open spec fn are_samples(samples: Seq<Vec<usize>>, count: int, size: int) -> bool {
    forall|k: int|
        0 <= k < samples.len() ==> (#[trigger] samples[k]).len() == size && is_distinct_sample(
            samples[k]@,
            count,
        )
}

/// The generator gives these samples one after the other.
pub open spec fn are_samplings(
    before: StdRng,
    count: usize,
    size: nat,
    samples: Seq<Vec<usize>>,
    after: StdRng,
) -> bool
    decreases samples.len(),
{
    if samples.len() == 0 {
        before == after
    } else {
        exists|middle: StdRng|
            are_samplings(before, count, size, samples.drop_last(), middle)
                && #[trigger] is_sampling(middle, count, size, Some(samples.last()@), after)
    }
}

/// The number of samples asked for, one at least.
pub open spec fn sample_limit(iterations: usize) -> nat {
    if iterations == 0 {
        1
    } else {
        iterations as nat
    }
}

/// The samples come one after the other from a generator with the given seed, as many as
/// are asked for, or fewer where the next sampling after them gives nothing.
pub open spec fn is_drawn(
    count: usize,
    size: nat,
    iterations: usize,
    seed: u64,
    samples: Seq<Vec<usize>>,
) -> bool {
    exists|start: StdRng, end: StdRng|
        {
            &&& #[trigger] is_seeded(seed, start)
            &&& #[trigger] are_samplings(start, count, size, samples, end)
            &&& samples.len() <= sample_limit(iterations)
            &&& samples.len() < sample_limit(iterations) ==> exists|last: StdRng| #[trigger]
                is_sampling(end, count, size, None, last)
        }
}

/// One more sample at the end of others.
proof fn lemma_sample_more(
    before: StdRng,
    count: usize,
    size: nat,
    samples: Seq<Vec<usize>>,
    middle: StdRng,
    sample: Vec<usize>,
    after: StdRng,
)
    requires
        are_samplings(before, count, size, samples, middle),
        is_sampling(middle, count, size, Some(sample@), after),
    ensures
        are_samplings(before, count, size, samples.push(sample), after),
{
    assert(samples.push(sample).drop_last() =~= samples);
    assert(is_sampling(middle, count, size, Some(samples.push(sample).last()@), after));
}

/// The samples of up to `iterations` hypotheses, one at least, from a generator with
/// the given seed. Drawing stops early where no distinct indices turn up.
pub fn draw_triples(count: usize, iterations: usize, seed: u64) -> (samples: Vec<Vec<usize>>)
    ensures
        are_samples(samples@, count as int, 3),
        samples.len() <= iterations || samples.len() <= 1,
        count < 3 ==> samples.len() == 0,
        is_drawn(count, 3, iterations, seed, samples@),
{
    let mut rng = seed_rng(seed);
    let ghost start = rng;
    let limit: usize = if iterations == 0 { 1 } else { iterations };
    let mut samples: Vec<Vec<usize>> = Vec::new();
    while samples.len() < limit
        invariant
            limit == if iterations == 0 { 1 } else { iterations },
            are_samples(samples@, count as int, 3),
            samples.len() <= limit,
            count < 3 ==> samples.len() == 0,
            is_seeded(seed, start),
            are_samplings(start, count, 3, samples@, rng),
        decreases limit - samples.len(),
    {
        let ghost middle = rng;
        match sample_three(count, &mut rng) {
            Some(indices) => {
                let mut sample: Vec<usize> = Vec::new();
                sample.push(indices[0]);
                sample.push(indices[1]);
                sample.push(indices[2]);
                assert(sample@ =~= indices@);
                proof {
                    lemma_sample_more(start, count, 3, samples@, middle, sample, rng);
                }
                samples.push(sample);
            },
            None => {
                assert(is_sampling(middle, count, 3, None, rng));
                return samples;
            },
        }
    }
    samples
}

/// Like [`draw_triples`], with two indices in each sample.
pub fn draw_pairs(count: usize, iterations: usize, seed: u64) -> (samples: Vec<Vec<usize>>)
    ensures
        are_samples(samples@, count as int, 2),
        samples.len() <= iterations || samples.len() <= 1,
        count < 2 ==> samples.len() == 0,
        is_drawn(count, 2, iterations, seed, samples@),
{
    let mut rng = seed_rng(seed);
    let ghost start = rng;
    let limit: usize = if iterations == 0 { 1 } else { iterations };
    let mut samples: Vec<Vec<usize>> = Vec::new();
    while samples.len() < limit
        invariant
            limit == if iterations == 0 { 1 } else { iterations },
            are_samples(samples@, count as int, 2),
            samples.len() <= limit,
            count < 2 ==> samples.len() == 0,
            is_seeded(seed, start),
            are_samplings(start, count, 2, samples@, rng),
        decreases limit - samples.len(),
    {
        let ghost middle = rng;
        match sample_two(count, &mut rng) {
            Some(indices) => {
                let mut sample: Vec<usize> = Vec::new();
                sample.push(indices[0]);
                sample.push(indices[1]);
                assert(sample@ =~= indices@);
                proof {
                    lemma_sample_more(start, count, 2, samples@, middle, sample, rng);
                }
                samples.push(sample);
            },
            None => {
                assert(is_sampling(middle, count, 2, None, rng));
                return samples;
            },
        }
    }
    samples
}

/// The generator repeats itself: a seed determines the generator, and a generator and a
/// bound determine the index that is drawn and the generator after it.
pub open spec fn generator_repeats() -> bool {
    &&& forall|seed: u64, a: StdRng, b: StdRng| #[trigger]
        is_seeded(seed, a) && #[trigger] is_seeded(seed, b) ==> a == b
    &&& forall|before: StdRng, count: usize, i: usize, j: usize, a: StdRng, b: StdRng| #[trigger]
        is_draw(before, count, i, a) && #[trigger] is_draw(before, count, j, b) ==> i == j && a
            == b
}

/// The samples are the same, one by one.
pub open spec fn same_samples(left: Seq<Vec<usize>>, right: Seq<Vec<usize>>) -> bool {
    &&& left.len() == right.len()
    &&& forall|k: int| 0 <= k < left.len() ==> (#[trigger] left[k])@ == right[k]@
}

proof fn lemma_draws_repeat(
    before: StdRng,
    count: usize,
    left: Seq<usize>,
    left_after: StdRng,
    right: Seq<usize>,
    right_after: StdRng,
)
    requires
        generator_repeats(),
        are_draws(before, count, left, left_after),
        are_draws(before, count, right, right_after),
        left.len() == right.len(),
    ensures
        left == right,
        left_after == right_after,
    decreases left.len(),
{
    if left.len() > 0 {
        let a = choose|middle: StdRng|
            are_draws(before, count, left.drop_last(), middle) && #[trigger] is_draw(
                middle,
                count,
                left.last(),
                left_after,
            );
        let b = choose|middle: StdRng|
            are_draws(before, count, right.drop_last(), middle) && #[trigger] is_draw(
                middle,
                count,
                right.last(),
                right_after,
            );
        lemma_draws_repeat(before, count, left.drop_last(), a, right.drop_last(), b);
        assert(left =~= left.drop_last().push(left.last()));
        assert(right =~= right.drop_last().push(right.last()));
    } else {
        assert(left =~= right);
    }
}

proof fn lemma_attempts_repeat(
    before: StdRng,
    count: usize,
    size: nat,
    left: Seq<Seq<usize>>,
    left_after: StdRng,
    right: Seq<Seq<usize>>,
    right_after: StdRng,
)
    requires
        generator_repeats(),
        are_attempts(before, count, size, left, left_after),
        are_attempts(before, count, size, right, right_after),
        left.len() == right.len(),
    ensures
        left == right,
        left_after == right_after,
    decreases left.len(),
{
    if left.len() > 0 {
        let a = choose|middle: StdRng|
            are_attempts(before, count, size, left.drop_last(), middle) && left.last().len()
                == size && #[trigger] are_draws(middle, count, left.last(), left_after);
        let b = choose|middle: StdRng|
            are_attempts(before, count, size, right.drop_last(), middle) && right.last().len()
                == size && #[trigger] are_draws(middle, count, right.last(), right_after);
        lemma_attempts_repeat(before, count, size, left.drop_last(), a, right.drop_last(), b);
        lemma_draws_repeat(a, count, left.last(), left_after, right.last(), right_after);
        assert(left =~= left.drop_last().push(left.last()));
        assert(right =~= right.drop_last().push(right.last()));
    } else {
        assert(left =~= right);
    }
}

proof fn lemma_first_attempts(
    before: StdRng,
    count: usize,
    size: nat,
    attempts: Seq<Seq<usize>>,
    after: StdRng,
    n: int,
) -> (middle: StdRng)
    requires
        are_attempts(before, count, size, attempts, after),
        0 <= n <= attempts.len(),
    ensures
        are_attempts(before, count, size, attempts.take(n), middle),
    decreases attempts.len(),
{
    if n == attempts.len() {
        assert(attempts.take(n) =~= attempts);
        after
    } else {
        let shorter = attempts.drop_last();
        let last = choose|middle: StdRng|
            are_attempts(before, count, size, shorter, middle) && attempts.last().len() == size
                && #[trigger] are_draws(middle, count, attempts.last(), after);
        assert(shorter.take(n) =~= attempts.take(n));
        lemma_first_attempts(before, count, size, shorter, last, n)
    }
}

/// One of two settled lists of attempts is not shorter than the other.
proof fn lemma_settles_no_earlier(
    before: StdRng,
    count: usize,
    size: nat,
    left: Seq<Seq<usize>>,
    left_after: StdRng,
    left_sample: Option<Seq<usize>>,
    right: Seq<Seq<usize>>,
    right_after: StdRng,
    right_sample: Option<Seq<usize>>,
)
    requires
        generator_repeats(),
        are_attempts(before, count, size, left, left_after),
        is_settled(left, left_sample),
        are_attempts(before, count, size, right, right_after),
        is_settled(right, right_sample),
    ensures
        left.len() >= right.len(),
{
    if left.len() < right.len() {
        let n = left.len() as int;
        let middle = lemma_first_attempts(before, count, size, right, right_after, n);
        lemma_attempts_repeat(before, count, size, left, left_after, right.take(n), middle);
        assert(right[n - 1] == left.last());
        assert(!no_repeats(right[n - 1]));
    }
}

proof fn lemma_sampling_repeats(
    before: StdRng,
    count: usize,
    size: nat,
    left: Option<Seq<usize>>,
    left_after: StdRng,
    right: Option<Seq<usize>>,
    right_after: StdRng,
)
    requires
        generator_repeats(),
        is_sampling(before, count, size, left, left_after),
        is_sampling(before, count, size, right, right_after),
    ensures
        left == right,
        left_after == right_after,
{
    if count >= size {
        let l = choose|attempts: Seq<Seq<usize>>| #[trigger]
            are_attempts(before, count, size, attempts, left_after) && is_settled(attempts, left);
        let r = choose|attempts: Seq<Seq<usize>>| #[trigger]
            are_attempts(before, count, size, attempts, right_after) && is_settled(
                attempts,
                right,
            );
        lemma_settles_no_earlier(
            before,
            count,
            size,
            l,
            left_after,
            left,
            r,
            right_after,
            right,
        );
        lemma_settles_no_earlier(
            before,
            count,
            size,
            r,
            right_after,
            right,
            l,
            left_after,
            left,
        );
        lemma_attempts_repeat(before, count, size, l, left_after, r, right_after);
    }
}

proof fn lemma_samplings_repeat(
    before: StdRng,
    count: usize,
    size: nat,
    left: Seq<Vec<usize>>,
    left_after: StdRng,
    right: Seq<Vec<usize>>,
    right_after: StdRng,
)
    requires
        generator_repeats(),
        are_samplings(before, count, size, left, left_after),
        are_samplings(before, count, size, right, right_after),
        left.len() == right.len(),
    ensures
        same_samples(left, right),
        left_after == right_after,
    decreases left.len(),
{
    if left.len() > 0 {
        let a = choose|middle: StdRng|
            are_samplings(before, count, size, left.drop_last(), middle) && #[trigger]
            is_sampling(middle, count, size, Some(left.last()@), left_after);
        let b = choose|middle: StdRng|
            are_samplings(before, count, size, right.drop_last(), middle) && #[trigger]
            is_sampling(middle, count, size, Some(right.last()@), right_after);
        lemma_samplings_repeat(before, count, size, left.drop_last(), a, right.drop_last(), b);
        lemma_sampling_repeats(
            a,
            count,
            size,
            Some(left.last()@),
            left_after,
            Some(right.last()@),
            right_after,
        );
        assert forall|k: int| 0 <= k < left.len() implies (#[trigger] left[k])@ == right[k]@ by {
            if k < left.len() - 1 {
                assert(left.drop_last()[k]@ == right.drop_last()[k]@);
            }
        }
    }
}

/// The generator after the first samples, from which the next one comes.
proof fn lemma_first_samplings(
    before: StdRng,
    count: usize,
    size: nat,
    samples: Seq<Vec<usize>>,
    after: StdRng,
    n: int,
) -> (states: (StdRng, StdRng))
    requires
        are_samplings(before, count, size, samples, after),
        0 <= n < samples.len(),
    ensures
        are_samplings(before, count, size, samples.take(n), states.0),
        is_sampling(states.0, count, size, Some(samples[n]@), states.1),
    decreases samples.len(),
{
    let shorter = samples.drop_last();
    let last = choose|middle: StdRng|
        are_samplings(before, count, size, shorter, middle) && #[trigger] is_sampling(
            middle,
            count,
            size,
            Some(samples.last()@),
            after,
        );
    if n == samples.len() - 1 {
        assert(samples.take(n) =~= shorter);
        (last, after)
    } else {
        assert(shorter.take(n) =~= samples.take(n));
        lemma_first_samplings(before, count, size, shorter, last, n)
    }
}

/// One of two draws is not shorter than the other.
proof fn lemma_draws_no_fewer(
    count: usize,
    size: nat,
    iterations: usize,
    seed: u64,
    left: Seq<Vec<usize>>,
    right: Seq<Vec<usize>>,
)
    requires
        generator_repeats(),
        is_drawn(count, size, iterations, seed, left),
        is_drawn(count, size, iterations, seed, right),
    ensures
        left.len() >= right.len(),
{
    if left.len() < right.len() {
        let (start, end) = choose|start: StdRng, end: StdRng|
            {
                &&& #[trigger] is_seeded(seed, start)
                &&& #[trigger] are_samplings(start, count, size, left, end)
                &&& left.len() < sample_limit(iterations) ==> exists|last: StdRng| #[trigger]
                    is_sampling(end, count, size, None, last)
            };
        let (other_start, other_end) = choose|start: StdRng, end: StdRng|
            {
                &&& #[trigger] is_seeded(seed, start)
                &&& #[trigger] are_samplings(start, count, size, right, end)
            };
        let n = left.len() as int;
        let states = lemma_first_samplings(start, count, size, right, other_end, n);
        lemma_samplings_repeat(start, count, size, left, end, right.take(n), states.0);
        let last = choose|last: StdRng| #[trigger] is_sampling(end, count, size, None, last);
        lemma_sampling_repeats(end, count, size, None, last, Some(right[n]@), states.1);
    }
}

/// Where the generator repeats itself, one seed gives the same samples every time.
pub proof fn one_seed_gives_the_same_samples(
    count: usize,
    size: nat,
    iterations: usize,
    seed: u64,
    left: Seq<Vec<usize>>,
    right: Seq<Vec<usize>>,
)
    requires
        generator_repeats(),
        is_drawn(count, size, iterations, seed, left),
        is_drawn(count, size, iterations, seed, right),
    ensures
        same_samples(left, right),
{
    lemma_draws_no_fewer(count, size, iterations, seed, left, right);
    lemma_draws_no_fewer(count, size, iterations, seed, right, left);
    let (start, end) = choose|start: StdRng, end: StdRng|
        {
            &&& #[trigger] is_seeded(seed, start)
            &&& #[trigger] are_samplings(start, count, size, left, end)
        };
    let (other_start, other_end) = choose|start: StdRng, end: StdRng|
        {
            &&& #[trigger] is_seeded(seed, start)
            &&& #[trigger] are_samplings(start, count, size, right, end)
        };
    lemma_samplings_repeat(start, count, size, left, end, right, other_end);
}

/// The indices hold one of them twice.
pub open spec fn repeats_one(indices: Seq<usize>) -> bool {
    exists|i: int, j: int|
        0 <= i < j < indices.len() && #[trigger] indices[i] == #[trigger] indices[j]
}

/// A sample is the first of its attempts without a repetition; sixty-four attempts are made
/// at most.
pub proof fn samples_are_the_first_without_repetition(
    attempts: Seq<Seq<usize>>,
    sample: Option<Seq<usize>>,
)
    requires
        is_settled(attempts, sample),
    ensures
        1 <= attempts.len() <= 64,
        sample matches Some(indices) ==> indices == attempts.last() && !repeats_one(indices),
        sample is None ==> attempts.len() == 64 && repeats_one(attempts.last()),
        forall|k: int|
            0 <= k < attempts.len() - 1 ==> repeats_one(#[trigger] attempts[k]),
{
    assert forall|indices: Seq<usize>| #[trigger] repeats_one(indices) == !no_repeats(
        indices,
    ) by {
        if !no_repeats(indices) {
            let (i, j) = choose|i: int, j: int|
                0 <= i < j < indices.len() && indices[i] == indices[j];
            assert(indices[i] == indices[j]);
        }
    }
}

/// No more samples are drawn than iterations are allowed, and one always may be.
pub proof fn one_sample_may_always_be_drawn(iterations: usize)
    ensures
        sample_limit(iterations) >= 1,
        iterations >= 1 ==> sample_limit(iterations) == iterations,
        sample_limit(0) == 1,
{
}

} // verus!
