//! Feature tracks: keypoints chained from frame to frame by temporal matches.
use crate::scalar::Scalar;
use crate::sequences::{lemma_filter_take, lemma_take_all};
use std::collections::BTreeMap;
use std::collections::BTreeSet;
use vstd::prelude::*;

verus! {

/// A match of a keypoint with one of the next frame.
#[derive(Clone, Copy, Debug, PartialEq, Eq, Structural)]
pub struct TemporalMatch {
    pub query_index: usize,
    pub train_index: usize,
    pub confidence: Option<Scalar>,
}

/// Whether a match may be chained: with a floor set, only one with a finite confidence of
/// at least the floor.
pub open spec fn is_chainable(matched: TemporalMatch, floor: Option<Scalar>) -> bool {
    match floor {
        None => true,
        Some(least) => match matched.confidence {
            None => false,
            Some(confidence) => confidence.is_finite() && least.le(confidence),
        },
    }
}

fn check_chainable(matched: &TemporalMatch, floor: Option<Scalar>) -> (b: bool)
    ensures
        b == is_chainable(*matched, floor),
{
    match floor {
        None => true,
        Some(least) => match matched.confidence {
            None => false,
            Some(confidence) => confidence.is_finite() && least.le(confidence),
        },
    }
}

/// Where a keypoint goes in the next frame: the last chainable match of it decides.
pub open spec fn successor(
    matches: Seq<TemporalMatch>,
    floor: Option<Scalar>,
    index: usize,
) -> Option<usize>
    decreases matches.len(),
{
    if matches.len() == 0 {
        None
    } else if is_chainable(matches.last(), floor) && matches.last().query_index == index {
        Some(matches.last().train_index)
    } else {
        successor(matches.drop_last(), floor, index)
    }
}

/// The successors of a frame's keypoints as a map.
pub open spec fn is_lookup(
    map: Map<usize, usize>,
    matches: Seq<TemporalMatch>,
    floor: Option<Scalar>,
) -> bool {
    forall|index: usize| #[trigger]
        successor(matches, floor, index) == (if map.contains_key(index) {
            Some(map[index])
        } else {
            None
        })
}

fn build_lookup(matches: &Vec<TemporalMatch>, floor: Option<Scalar>) -> (map: BTreeMap<
    usize,
    usize,
>)
    ensures
        is_lookup(map@, matches@, floor),
{
    broadcast use vstd::std_specs::btree::group_btree_axioms;

    let mut map: BTreeMap<usize, usize> = BTreeMap::new();
    let mut i: usize = 0;
    while i < matches.len()
        invariant
            i <= matches.len(),
            is_lookup(map@, matches@.take(i as int), floor),
        decreases matches.len() - i,
    {
        broadcast use vstd::std_specs::btree::group_btree_axioms;

        assert(matches@.take(i + 1).drop_last() =~= matches@.take(i as int));
        let ghost before = map@;
        if check_chainable(&matches[i], floor) {
            map.insert(matches[i].query_index, matches[i].train_index);
        }
        proof {
            assert forall|index: usize| #[trigger]
                successor(matches@.take(i + 1), floor, index) == (if map@.contains_key(index) {
                    Some(map@[index])
                } else {
                    None
                }) by {
                assert(successor(matches@.take(i as int), floor, index) == (
                if before.contains_key(index) {
                    Some(before[index])
                } else {
                    None
                }));
            }
        }
        i += 1;
    }
    proof {
        lemma_take_all(matches@);
    }
    map
}

/// What a sweep over the keypoints has found: the slots it has visited, and the chains.
#[verifier::ext_equal]
pub struct Sweep {
    pub visited: Set<(usize, usize)>,
    pub chains: Seq<Seq<(usize, usize)>>,
}

/// The chain that starts at a keypoint: it goes from successor to successor until there
/// is none, the frames end, or the next slot is taken.
pub open spec fn chain(
    temporal: Seq<Seq<TemporalMatch>>,
    floor: Option<Scalar>,
    frames: nat,
    visited: Set<(usize, usize)>,
    frame: nat,
    index: usize,
) -> Seq<(usize, usize)>
    decreases frames - frame,
{
    let head = seq![(frame as usize, index)];
    if frame + 1 < frames {
        match successor(temporal[frame as int], floor, index) {
            Some(next) => if visited.contains(((frame + 1) as usize, next)) {
                head
            } else {
                head + chain(temporal, floor, frames, visited, frame + 1, next)
            },
            None => head,
        }
    } else {
        head
    }
}

/// The slots of a chain.
pub open spec fn slots(track: Seq<(usize, usize)>) -> Set<(usize, usize)> {
    Set::new(|slot: (usize, usize)| track.contains(slot))
}

/// The sweep after one more keypoint: unless it is taken, its chain is taken.
pub open spec fn swept(
    temporal: Seq<Seq<TemporalMatch>>,
    floor: Option<Scalar>,
    frames: nat,
    before: Sweep,
    frame: nat,
    index: usize,
) -> Sweep {
    if before.visited.contains((frame as usize, index)) {
        before
    } else {
        let found = chain(temporal, floor, frames, before.visited, frame, index);
        Sweep { visited: before.visited.union(slots(found)), chains: before.chains.push(found) }
    }
}

/// The sweep over all keypoints of the frames before `frame`, and those of `frame` before
/// `index`. `counts` holds the number of keypoints of each frame.
pub open spec fn sweep(
    temporal: Seq<Seq<TemporalMatch>>,
    floor: Option<Scalar>,
    counts: Seq<nat>,
    frame: nat,
    index: nat,
) -> Sweep
    decreases frame, index,
{
    if index > 0 {
        swept(
            temporal,
            floor,
            counts.len(),
            sweep(temporal, floor, counts, frame, (index - 1) as nat),
            frame,
            (index - 1) as usize,
        )
    } else if frame > 0 {
        sweep(temporal, floor, counts, (frame - 1) as nat, counts[frame - 1])
    } else {
        Sweep { visited: Set::empty(), chains: Seq::empty() }
    }
}

/// All chains of a sequence of frames.
pub open spec fn all_chains(
    temporal: Seq<Seq<TemporalMatch>>,
    floor: Option<Scalar>,
    counts: Seq<nat>,
) -> Seq<Seq<(usize, usize)>> {
    sweep(temporal, floor, counts, counts.len(), 0).chains
}

/// Whether a chain is long enough.
pub open spec fn is_long(min_track_length: usize) -> spec_fn(Seq<(usize, usize)>) -> bool {
    |track: Seq<(usize, usize)>| track.len() >= min_track_length
}

/// The forward tracks: the chains that are long enough, in the order of their starts.
pub open spec fn forward_tracks(
    temporal: Seq<Seq<TemporalMatch>>,
    floor: Option<Scalar>,
    counts: Seq<nat>,
    min_track_length: usize,
) -> Seq<Seq<(usize, usize)>> {
    all_chains(temporal, floor, counts).filter(is_long(min_track_length))
}

/// The lists as sequences.
pub open spec fn lists<T>(outer: Seq<Vec<T>>) -> Seq<Seq<T>> {
    outer.map_values(|inner: Vec<T>| inner@)
}

/// The numbers as naturals.
pub open spec fn naturals(counts: Seq<usize>) -> Seq<nat> {
    counts.map_values(|count: usize| count as nat)
}

proof fn lemma_chain_shape(
    temporal: Seq<Seq<TemporalMatch>>,
    floor: Option<Scalar>,
    frames: nat,
    visited: Set<(usize, usize)>,
    frame: nat,
    index: usize,
)
    requires
        frames <= usize::MAX,
        frame < frames,
        !visited.contains((frame as usize, index)),
    ensures
        ({
            let track = chain(temporal, floor, frames, visited, frame, index);
            &&& 0 < track.len() <= frames - frame
            &&& track[0] == (frame as usize, index)
            &&& forall|k: int|
                0 <= k < track.len() ==> (#[trigger] track[k]).0 == frame + k && !visited.contains(
                    track[k],
                )
            &&& forall|k: int|
                0 <= k < track.len() - 1 ==> successor(
                    temporal[frame + k],
                    floor,
                    (#[trigger] track[k]).1,
                ) == Some(track[k + 1].1)
        }),
    decreases frames - frame,
{
    let track = chain(temporal, floor, frames, visited, frame, index);
    if frame + 1 < frames {
        match successor(temporal[frame as int], floor, index) {
            Some(next) => {
                if !visited.contains(((frame + 1) as usize, next)) {
                    lemma_chain_shape(temporal, floor, frames, visited, frame + 1, next);
                    let tail = chain(temporal, floor, frames, visited, frame + 1, next);
                    assert(track =~= seq![(frame as usize, index)] + tail);
                    assert forall|k: int| 0 <= k < track.len() implies (#[trigger] track[k]).0
                        == frame + k && !visited.contains(track[k]) by {
                        if k > 0 {
                            assert(track[k] == tail[k - 1]);
                        }
                    }
                    assert forall|k: int| 0 <= k < track.len() - 1 implies successor(
                        temporal[frame + k],
                        floor,
                        (#[trigger] track[k]).1,
                    ) == Some(track[k + 1].1) by {
                        assert(track[k + 1] == tail[k]);
                        if k > 0 {
                            assert(track[k] == tail[k - 1]);
                        }
                    }
                }
            },
            None => {},
        }
    }
}

/// What every sweep keeps: the chains share no slot, and visited are exactly their slots.
pub open spec fn is_partition(state: Sweep) -> bool {
    &&& forall|slot: (usize, usize)| #[trigger]
        state.visited.contains(slot) <==> exists|t: int|
            0 <= t < state.chains.len() && (#[trigger] state.chains[t]).contains(slot)
    &&& forall|s: int, t: int, slot: (usize, usize)|
        0 <= s < t < state.chains.len() && #[trigger] state.chains[s].contains(slot)
            ==> !#[trigger] state.chains[t].contains(slot)
}

/// Every chain runs through consecutive frames along chainable matches.
pub open spec fn are_linked(
    temporal: Seq<Seq<TemporalMatch>>,
    floor: Option<Scalar>,
    chains: Seq<Seq<(usize, usize)>>,
) -> bool {
    forall|t: int| 0 <= t < chains.len() ==> is_linked(temporal, floor, #[trigger] chains[t])
}

/// Every slot of the track lies in one of the frames.
pub open spec fn is_within(track: Seq<(usize, usize)>, frames: nat) -> bool {
    forall|k: int| 0 <= k < track.len() ==> (#[trigger] track[k]).0 < frames
}

/// Every slot of every chain lies in one of the frames.
pub open spec fn are_within(chains: Seq<Seq<(usize, usize)>>, frames: nat) -> bool {
    forall|t: int| 0 <= t < chains.len() ==> is_within(#[trigger] chains[t], frames)
}

/// The track runs through consecutive frames along chainable matches.
pub open spec fn is_linked(
    temporal: Seq<Seq<TemporalMatch>>,
    floor: Option<Scalar>,
    track: Seq<(usize, usize)>,
) -> bool {
    &&& track.len() > 0
    &&& forall|k: int|
        0 <= k < track.len() - 1 ==> (#[trigger] track[k + 1]).0 == track[k].0 + 1 && successor(
            temporal[track[k].0 as int],
            floor,
            track[k].1,
        ) == Some(track[k + 1].1)
}

proof fn lemma_swept_keeps(
    temporal: Seq<Seq<TemporalMatch>>,
    floor: Option<Scalar>,
    frames: nat,
    before: Sweep,
    frame: nat,
    index: usize,
)
    requires
        frames <= usize::MAX,
        frame < frames,
        is_partition(before),
        are_linked(temporal, floor, before.chains),
        are_within(before.chains, frames),
    ensures
        ({
            let after = swept(temporal, floor, frames, before, frame, index);
            &&& is_partition(after)
            &&& are_linked(temporal, floor, after.chains)
            &&& are_within(after.chains, frames)
            &&& after.visited.contains((frame as usize, index))
            &&& before.visited.subset_of(after.visited)
        }),
{
    let after = swept(temporal, floor, frames, before, frame, index);
    if !before.visited.contains((frame as usize, index)) {
        lemma_chain_shape(temporal, floor, frames, before.visited, frame, index);
        let found = chain(temporal, floor, frames, before.visited, frame, index);
        let n = before.chains.len() as int;
        assert(after.chains[n] == found);
        assert(found.contains(found[0]));
        assert forall|slot: (usize, usize)| #[trigger]
            after.visited.contains(slot) <==> exists|t: int|
                0 <= t < after.chains.len() && (#[trigger] after.chains[t]).contains(slot) by {
            if before.visited.contains(slot) {
                let t = choose|t: int|
                    0 <= t < before.chains.len() && (#[trigger] before.chains[t]).contains(slot);
                assert(after.chains[t].contains(slot));
            }
            if found.contains(slot) {
                assert(after.chains[n].contains(slot));
            }
            if exists|t: int|
                0 <= t < after.chains.len() && (#[trigger] after.chains[t]).contains(slot) {
                let t = choose|t: int|
                    0 <= t < after.chains.len() && (#[trigger] after.chains[t]).contains(slot);
                if t < n {
                    assert(before.chains[t].contains(slot));
                    assert(before.visited.contains(slot));
                }
            }
        }
        assert forall|s: int, t: int, slot: (usize, usize)|
            0 <= s < t < after.chains.len() && #[trigger] after.chains[s].contains(
                slot,
            ) implies !#[trigger] after.chains[t].contains(slot) by {
            assert(before.chains[s].contains(slot));
            assert(before.visited.contains(slot));
            if t < n {
                assert(before.chains[t] == after.chains[t]);
            } else if found.contains(slot) {
                let k = choose|k: int| 0 <= k < found.len() && found[k] == slot;
                assert(!before.visited.contains(found[k]));
            }
        }
        assert forall|t: int| 0 <= t < after.chains.len() implies is_within(
            #[trigger] after.chains[t],
            frames,
        ) by {
            if t < n {
                assert(before.chains[t] == after.chains[t]);
            }
        }
        assert forall|t: int| 0 <= t < after.chains.len() implies is_linked(
            temporal,
            floor,
            #[trigger] after.chains[t],
        ) by {
            if t < n {
                assert(before.chains[t] == after.chains[t]);
            } else {
                assert forall|k: int| 0 <= k < found.len() - 1 implies (#[trigger] found[k + 1]).0
                    == found[k].0 + 1 && successor(
                    temporal[found[k].0 as int],
                    floor,
                    found[k].1,
                ) == Some(found[k + 1].1) by {
                    assert(found[k].0 == frame + k);
                }
            }
        }
    }
}

proof fn lemma_sweep_keeps(
    temporal: Seq<Seq<TemporalMatch>>,
    floor: Option<Scalar>,
    counts: Seq<nat>,
    frame: nat,
    index: nat,
)
    requires
        counts.len() <= usize::MAX,
        frame <= counts.len(),
        index > 0 ==> frame < counts.len() && index <= counts[frame as int],
        forall|f: int| 0 <= f < counts.len() ==> #[trigger] counts[f] <= usize::MAX,
    ensures
        is_partition(sweep(temporal, floor, counts, frame, index)),
        are_linked(temporal, floor, sweep(temporal, floor, counts, frame, index).chains),
        are_within(sweep(temporal, floor, counts, frame, index).chains, counts.len()),
        forall|slot: (usize, usize)|
            (slot.0 < frame && slot.1 < counts[slot.0 as int]) || (slot.0 == frame && slot.1
                < index) ==> #[trigger] sweep(
                temporal,
                floor,
                counts,
                frame,
                index,
            ).visited.contains(slot),
    decreases frame, index,
{
    if index > 0 {
        let earlier = (index - 1) as nat;
        lemma_sweep_keeps(temporal, floor, counts, frame, earlier);
        let before = sweep(temporal, floor, counts, frame, earlier);
        lemma_swept_keeps(temporal, floor, counts.len(), before, frame, earlier as usize);
        let after = sweep(temporal, floor, counts, frame, index);
        assert forall|slot: (usize, usize)|
            (slot.0 < frame && slot.1 < counts[slot.0 as int]) || (slot.0 == frame && slot.1
                < index) implies #[trigger] after.visited.contains(slot) by {
            if slot.0 < frame || slot.1 < earlier {
                assert(before.visited.contains(slot));
            } else {
                assert(slot == (frame as usize, earlier as usize));
            }
        }
    } else if frame > 0 {
        let f = (frame - 1) as nat;
        assert(counts[f as int] <= usize::MAX);
        lemma_sweep_keeps(temporal, floor, counts, f, counts[f as int]);
    }
}

/// No keypoint is on two tracks: two tracks at different places share no slot.
pub proof fn tracks_are_disjoint(
    temporal: Seq<Seq<TemporalMatch>>,
    floor: Option<Scalar>,
    counts: Seq<nat>,
    min_track_length: usize,
    s: int,
    t: int,
    slot: (usize, usize),
)
    requires
        counts.len() <= usize::MAX,
        forall|f: int| 0 <= f < counts.len() ==> #[trigger] counts[f] <= usize::MAX,
        0 <= s < t < forward_tracks(temporal, floor, counts, min_track_length).len(),
        forward_tracks(temporal, floor, counts, min_track_length)[s].contains(slot),
    ensures
        !forward_tracks(temporal, floor, counts, min_track_length)[t].contains(slot),
{
    lemma_sweep_keeps(temporal, floor, counts, counts.len(), 0);
    let chains = all_chains(temporal, floor, counts);
    let at = crate::sequences::lemma_filter_positions(chains, is_long(min_track_length));
    assert(at[s] < at[t]);
    assert(chains[at[s]].contains(slot));
    assert(!chains[at[t]].contains(slot));
}

/// Every track is long enough and runs through consecutive frames along chainable
/// matches.
pub proof fn tracks_follow_matches(
    temporal: Seq<Seq<TemporalMatch>>,
    floor: Option<Scalar>,
    counts: Seq<nat>,
    min_track_length: usize,
    t: int,
)
    requires
        counts.len() <= usize::MAX,
        forall|f: int| 0 <= f < counts.len() ==> #[trigger] counts[f] <= usize::MAX,
        0 <= t < forward_tracks(temporal, floor, counts, min_track_length).len(),
    ensures
        forward_tracks(temporal, floor, counts, min_track_length)[t].len() >= min_track_length,
        is_linked(temporal, floor, forward_tracks(temporal, floor, counts, min_track_length)[t]),
        is_within(
            forward_tracks(temporal, floor, counts, min_track_length)[t],
            counts.len(),
        ),
{
    lemma_sweep_keeps(temporal, floor, counts, counts.len(), 0);
    let chains = all_chains(temporal, floor, counts);
    let at = crate::sequences::lemma_filter_positions(chains, is_long(min_track_length));
    assert(is_linked(temporal, floor, chains[at[t]]));
    assert(is_within(chains[at[t]], counts.len()));
}

/// Every keypoint is on some chain, though its chain may be too short for a track.
pub proof fn every_keypoint_is_chained(
    temporal: Seq<Seq<TemporalMatch>>,
    floor: Option<Scalar>,
    counts: Seq<nat>,
    slot: (usize, usize),
)
    requires
        counts.len() <= usize::MAX,
        forall|f: int| 0 <= f < counts.len() ==> #[trigger] counts[f] <= usize::MAX,
        slot.0 < counts.len(),
        slot.1 < counts[slot.0 as int],
    ensures
        exists|t: int|
            0 <= t < all_chains(temporal, floor, counts).len() && (#[trigger] all_chains(
                temporal,
                floor,
                counts,
            )[t]).contains(slot),
{
    lemma_sweep_keeps(temporal, floor, counts, counts.len(), 0);
    let state = sweep(temporal, floor, counts, counts.len(), 0);
    assert(state.visited.contains(slot));
    let t = choose|t: int|
        0 <= t < state.chains.len() && (#[trigger] state.chains[t]).contains(slot);
    assert(all_chains(temporal, floor, counts)[t].contains(slot));
}

/// The chain that starts at a keypoint, with its slots added to those visited.
fn follow(
    lookups: &Vec<BTreeMap<usize, usize>>,
    frames: usize,
    visited: &mut BTreeSet<(usize, usize)>,
    frame: usize,
    index: usize,
    Ghost(temporal): Ghost<Seq<Seq<TemporalMatch>>>,
    Ghost(floor): Ghost<Option<Scalar>>,
) -> (track: Vec<(usize, usize)>)
    requires
        frame < frames,
        !old(visited)@.contains((frame, index)),
        lookups.len() == temporal.len(),
        temporal.len() + 1 == frames,
        forall|f: int| 0 <= f < lookups.len() ==> is_lookup(#[trigger] lookups[f]@, temporal[f], floor),
    ensures
        track@ == chain(temporal, floor, frames as nat, old(visited)@, frame as nat, index),
        final(visited)@ == old(visited)@.union(slots(track@)),
{
    broadcast use vstd::std_specs::btree::group_btree_axioms;

    let ghost taken = visited@;
    let ghost whole = chain(temporal, floor, frames as nat, taken, frame as nat, index);
    let mut track: Vec<(usize, usize)> = Vec::new();
    let mut at: usize = frame;
    let mut slot: usize = index;
    track.push((frame, index));
    visited.insert((frame, index));
    assert(track@[0] == (frame, index));
    assert(visited@ =~= taken.union(slots(track@)));
    proof {
        assert(seq![(frame, index)] + whole.skip(1) =~= whole) by {
            lemma_chain_shape(temporal, floor, frames as nat, taken, frame as nat, index);
        }
    }
    while at + 1 < frames
        invariant_except_break
            whole == track@.drop_last() + chain(
                temporal,
                floor,
                frames as nat,
                taken,
                at as nat,
                slot,
            ),
        invariant
            at < frames,
            lookups.len() == temporal.len(),
            temporal.len() + 1 == frames,
            forall|f: int|
                0 <= f < lookups.len() ==> is_lookup(#[trigger] lookups[f]@, temporal[f], floor),
            track.len() > 0,
            track@.last() == (at, slot),
            forall|k: int| 0 <= k < track.len() ==> (#[trigger] track[k]).0 <= at,
            visited@ == taken.union(slots(track@)),
        ensures
            whole == track@,
        decreases frames - at,
    {
        broadcast use vstd::std_specs::btree::group_btree_axioms;

        assert(is_lookup(lookups[at as int]@, temporal[at as int], floor));
        assert(successor(temporal[at as int], floor, slot) == (if lookups[at as int]@.contains_key(
            slot,
        ) {
            Some(lookups[at as int]@[slot])
        } else {
            None
        }));
        match lookups[at].get(&slot) {
            None => {
                assert(whole =~= track@);
                break;
            },
            Some(next) => {
                assert(visited@.contains(((at + 1) as usize, *next)) == taken.contains(
                    ((at + 1) as usize, *next),
                )) by {
                    if track@.contains(((at + 1) as usize, *next)) {
                        let k = choose|k: int|
                            0 <= k < track.len() && track@[k] == ((at + 1) as usize, *next);
                        assert(track[k].0 <= at);
                    }
                }
                if visited.contains(&(at + 1, *next)) {
                    assert(whole =~= track@);
                    break;
                }
                let ghost before = track@;
                track.push((at + 1, *next));
                visited.insert((at + 1, *next));
                proof {
                    assert(track@.drop_last() =~= before);
                    assert(before.drop_last() + seq![(at, slot)] =~= before);
                    let rest = chain(
                        temporal,
                        floor,
                        frames as nat,
                        taken,
                        (at + 1) as nat,
                        *next,
                    );
                    assert(before.drop_last() + (seq![(at, slot)] + rest) =~= before + rest);
                    assert forall|s: (usize, usize)| #[trigger]
                        track@.contains(s) <==> before.contains(s) || s == (
                        (at + 1) as usize,
                        *next,
                    ) by {
                        if before.contains(s) {
                            let k = choose|k: int| 0 <= k < before.len() && before[k] == s;
                            assert(track@[k] == s);
                        }
                        assert(track@[before.len() as int] == ((at + 1) as usize, *next));
                    }
                    assert(visited@ =~= taken.union(slots(track@)));
                }
                slot = *next;
                at += 1;
            },
        }
        assert(at + 1 >= frames ==> chain(
            temporal,
            floor,
            frames as nat,
            taken,
            at as nat,
            slot,
        ) =~= seq![(at, slot)]);
        assert(at + 1 >= frames ==> whole =~= track@);
    }
    track
}

/// Chains keypoints into forward tracks. `counts` holds the number of keypoints of each
/// frame, and `temporal` the matches of each frame with the next.
pub fn build_forward_tracks(
    counts: &Vec<usize>,
    temporal: &[Vec<TemporalMatch>],
    floor: Option<Scalar>,
    min_track_length: usize,
) -> (tracks: Vec<Vec<(usize, usize)>>)
    requires
        temporal@.len() + 1 == counts.len(),
    ensures
        lists(tracks@) == forward_tracks(
            lists(temporal@),
            floor,
            naturals(counts@),
            min_track_length,
        ),
{
    broadcast use vstd::std_specs::btree::group_btree_axioms;

    let ghost matches = lists(temporal@);
    let ghost totals = naturals(counts@);
    let frames = counts.len();
    let mut lookups: Vec<BTreeMap<usize, usize>> = Vec::new();
    let mut f: usize = 0;
    while f < temporal.len()
        invariant
            f <= temporal@.len(),
            lookups.len() == f,
            forall|k: int|
                0 <= k < lookups.len() ==> is_lookup(#[trigger] lookups[k]@, temporal@[k]@, floor),
        decreases temporal@.len() - f,
    {
        let lookup = build_lookup(&temporal[f], floor);
        lookups.push(lookup);
        f += 1;
    }
    assert forall|k: int| 0 <= k < lookups.len() implies is_lookup(
        #[trigger] lookups[k]@,
        matches[k],
        floor,
    ) by {}
    let mut visited: BTreeSet<(usize, usize)> = BTreeSet::new();
    let mut tracks: Vec<Vec<(usize, usize)>> = Vec::new();
    let ghost mut state = sweep(matches, floor, totals, 0, 0);
    assert(visited@ =~= state.visited);
    assert(lists(tracks@) =~= state.chains.filter(is_long(min_track_length))) by {
        reveal(Seq::filter);
    }
    let mut frame: usize = 0;
    while frame < frames
        invariant
            frame <= frames,
            frames == counts.len(),
            matches == lists(temporal@),
            totals == naturals(counts@),
            lookups.len() == matches.len(),
            matches.len() + 1 == frames,
            forall|k: int|
                0 <= k < lookups.len() ==> is_lookup(#[trigger] lookups[k]@, matches[k], floor),
            state == sweep(matches, floor, totals, frame as nat, 0),
            visited@ == state.visited,
            lists(tracks@) == state.chains.filter(is_long(min_track_length)),
        decreases frames - frame,
    {
        let mut index: usize = 0;
        while index < counts[frame]
            invariant
                frame < frames,
                frames == counts.len(),
                index <= counts[frame as int],
                matches == lists(temporal@),
                totals == naturals(counts@),
                lookups.len() == matches.len(),
                matches.len() + 1 == frames,
                forall|k: int|
                    0 <= k < lookups.len() ==> is_lookup(
                        #[trigger] lookups[k]@,
                        matches[k],
                        floor,
                    ),
                state == sweep(matches, floor, totals, frame as nat, index as nat),
                visited@ == state.visited,
                lists(tracks@) == state.chains.filter(is_long(min_track_length)),
            decreases counts[frame as int] - index,
        {
            broadcast use vstd::std_specs::btree::group_btree_axioms;

            let ghost before = state;
            proof {
                state = sweep(matches, floor, totals, frame as nat, (index + 1) as nat);
            }
            if !visited.contains(&(frame, index)) {
                let track = follow(
                    &lookups,
                    frames,
                    &mut visited,
                    frame,
                    index,
                    Ghost(matches),
                    Ghost(floor),
                );
                proof {
                    lemma_filter_take(
                        state.chains,
                        before.chains.len() as int,
                        is_long(min_track_length),
                    );
                    assert(state.chains.take(before.chains.len() as int) =~= before.chains);
                    assert(state.chains.take(before.chains.len() as int + 1) =~= state.chains);
                }
                if track.len() >= min_track_length {
                    let ghost kept = tracks@;
                    tracks.push(track);
                    assert(lists(tracks@) =~= lists(kept).push(track@));
                }
            }
            index += 1;
        }
        assert(totals[frame as int] == counts[frame as int]);
        frame += 1;
    }
    tracks
}

/// The match leads from a keypoint to one of the next frame, and its confidence is good
/// enough: with a floor set it is there, finite and not below the floor.
pub open spec fn joins(
    matched: TemporalMatch,
    floor: Option<Scalar>,
    from: usize,
    to: usize,
) -> bool {
    &&& matched.query_index == from
    &&& matched.train_index == to
    &&& floor matches Some(least) ==> matched.confidence is Some
        && matched.confidence->0.is_finite() && least.le(matched.confidence->0)
}

/// Of the matches that may join a keypoint to the next frame, the one at `m` comes last.
pub open spec fn joins_last(
    matches: Seq<TemporalMatch>,
    floor: Option<Scalar>,
    m: int,
    from: usize,
    to: usize,
) -> bool {
    &&& 0 <= m < matches.len()
    &&& joins(matches[m], floor, from, to)
    &&& forall|later: int, other: usize|
        m < later < matches.len() ==> !#[trigger] joins(matches[later], floor, from, other)
}

/// Some match joins the keypoint to that of the next frame, and no later one leads from it.
pub open spec fn are_joined(
    matches: Seq<TemporalMatch>,
    floor: Option<Scalar>,
    from: usize,
    to: usize,
) -> bool {
    exists|m: int| #[trigger] joins_last(matches, floor, m, from, to)
}

proof fn lemma_successor_joins(
    matches: Seq<TemporalMatch>,
    floor: Option<Scalar>,
    from: usize,
) -> (m: int)
    ensures
        successor(matches, floor, from) matches Some(to) ==> joins_last(
            matches,
            floor,
            m,
            from,
            to,
        ),
        successor(matches, floor, from) is None ==> forall|k: int, to: usize|
            0 <= k < matches.len() ==> !#[trigger] joins(matches[k], floor, from, to),
    decreases matches.len(),
{
    if matches.len() == 0 {
        0
    } else {
        let n = matches.len() - 1;
        let rest = matches.drop_last();
        if is_chainable(matches.last(), floor) && matches.last().query_index == from {
            n
        } else {
            let m = lemma_successor_joins(rest, floor, from);
            assert forall|k: int, to: usize|
                0 <= k < matches.len() && #[trigger] joins(matches[k], floor, from, to) implies k
                < n && joins(rest[k], floor, from, to) by {}
            m
        }
    }
}

proof fn lemma_last_join_is_successor(
    matches: Seq<TemporalMatch>,
    floor: Option<Scalar>,
    m: int,
    from: usize,
    to: usize,
)
    requires
        joins_last(matches, floor, m, from, to),
    ensures
        successor(matches, floor, from) == Some(to),
{
    let k = lemma_successor_joins(matches, floor, from);
    assert(joins(matches[m], floor, from, to));
    let other = successor(matches, floor, from)->0;
    assert(joins(matches[k], floor, from, other));
}

/// Two consecutive slots of a track lie in consecutive frames and are joined by a match of
/// the input: with a floor set, by one whose confidence is there, finite and at least the
/// floor. Of several such matches the last one decides where the track goes.
pub proof fn tracks_keep_the_floor(
    temporal: Seq<Seq<TemporalMatch>>,
    floor: Option<Scalar>,
    counts: Seq<nat>,
    min_track_length: usize,
    t: int,
    k: int,
)
    requires
        counts.len() <= usize::MAX,
        forall|f: int| 0 <= f < counts.len() ==> #[trigger] counts[f] <= usize::MAX,
        0 <= t < forward_tracks(temporal, floor, counts, min_track_length).len(),
        0 <= k < forward_tracks(temporal, floor, counts, min_track_length)[t].len() - 1,
    ensures
        ({
            let track = forward_tracks(temporal, floor, counts, min_track_length)[t];
            let frame = track[k].0;
            &&& track[k + 1].0 == frame + 1
            &&& frame + 1 < counts.len()
            &&& are_joined(temporal[frame as int], floor, track[k].1, track[k + 1].1)
        }),
{
    tracks_follow_matches(temporal, floor, counts, min_track_length, t);
    let track = forward_tracks(temporal, floor, counts, min_track_length)[t];
    assert(track[k + 1].0 == track[k].0 + 1);
    assert(track[k + 1].0 < counts.len());
    let m = lemma_successor_joins(temporal[track[k].0 as int], floor, track[k].1);
    assert(joins_last(temporal[track[k].0 as int], floor, m, track[k].1, track[k + 1].1));
}

/// Wherever a keypoint's chain could go on, the slot it would go to is on a chain: it
/// comes next, or another chain holds it.
spec fn are_exhausted(
    temporal: Seq<Seq<TemporalMatch>>,
    floor: Option<Scalar>,
    frames: nat,
    state: Sweep,
) -> bool {
    forall|t: int, k: int|
        0 <= t < state.chains.len() && 0 <= k < state.chains[t].len() && (
        #[trigger] state.chains[t][k]).0 + 1 < frames ==> {
            let slot = state.chains[t][k];
            successor(temporal[slot.0 as int], floor, slot.1) matches Some(next) ==> {
                ||| k + 1 < state.chains[t].len() && state.chains[t][k + 1] == (
                    (slot.0 + 1) as usize,
                    next,
                )
                ||| k + 1 == state.chains[t].len() && exists|s: int|
                    0 <= s < t && (#[trigger] state.chains[s]).contains(
                        ((slot.0 + 1) as usize, next),
                    )
            }
        }
}

proof fn lemma_chain_is_exhausted(
    temporal: Seq<Seq<TemporalMatch>>,
    floor: Option<Scalar>,
    frames: nat,
    visited: Set<(usize, usize)>,
    frame: nat,
    index: usize,
    k: int,
)
    requires
        frames <= usize::MAX,
        frame < frames,
        0 <= k < chain(temporal, floor, frames, visited, frame, index).len(),
    ensures
        ({
            let track = chain(temporal, floor, frames, visited, frame, index);
            frame + k + 1 < frames ==> (successor(
                temporal[frame + k],
                floor,
                track[k].1,
            ) matches Some(next) ==> {
                ||| k + 1 < track.len() && track[k + 1] == ((frame + k + 1) as usize, next)
                ||| k + 1 == track.len() && visited.contains(((frame + k + 1) as usize, next))
            })
        }),
    decreases frames - frame,
{
    let track = chain(temporal, floor, frames, visited, frame, index);
    if frame + 1 < frames {
        match successor(temporal[frame as int], floor, index) {
            Some(next) => {
                if !visited.contains(((frame + 1) as usize, next)) {
                    let tail = chain(temporal, floor, frames, visited, frame + 1, next);
                    assert(track =~= seq![(frame as usize, index)] + tail);
                    lemma_chain_shape(temporal, floor, frames, visited, frame + 1, next);
                    if k > 0 {
                        lemma_chain_is_exhausted(
                            temporal,
                            floor,
                            frames,
                            visited,
                            frame + 1,
                            next,
                            k - 1,
                        );
                        assert(track[k] == tail[k - 1]);
                        if k + 1 < track.len() {
                            assert(track[k + 1] == tail[k]);
                        }
                    } else {
                        assert(track[1] == tail[0]);
                    }
                }
            },
            None => {},
        }
    }
}

proof fn lemma_sweep_exhausts(
    temporal: Seq<Seq<TemporalMatch>>,
    floor: Option<Scalar>,
    counts: Seq<nat>,
    frame: nat,
    index: nat,
)
    requires
        counts.len() <= usize::MAX,
        frame <= counts.len(),
        index > 0 ==> frame < counts.len() && index <= counts[frame as int],
        forall|f: int| 0 <= f < counts.len() ==> #[trigger] counts[f] <= usize::MAX,
    ensures
        are_exhausted(
            temporal,
            floor,
            counts.len(),
            sweep(temporal, floor, counts, frame, index),
        ),
        forall|t: int|
            0 <= t < sweep(temporal, floor, counts, frame, index).chains.len() ==> starts_before(
                #[trigger] sweep(temporal, floor, counts, frame, index).chains[t],
                frame,
                index,
            ),
        forall|s: int, t: int|
            0 <= s < t < sweep(temporal, floor, counts, frame, index).chains.len()
                ==> starts_before(
                #[trigger] sweep(temporal, floor, counts, frame, index).chains[s],
                (#[trigger] sweep(temporal, floor, counts, frame, index).chains[t])[0].0 as nat,
                sweep(temporal, floor, counts, frame, index).chains[t][0].1 as nat,
            ),
    decreases frame, index,
{
    let after = sweep(temporal, floor, counts, frame, index);
    if index > 0 {
        let earlier = (index - 1) as nat;
        lemma_sweep_exhausts(temporal, floor, counts, frame, earlier);
        lemma_sweep_keeps(temporal, floor, counts, frame, earlier);
        let before = sweep(temporal, floor, counts, frame, earlier);
        if !before.visited.contains((frame as usize, earlier as usize)) {
            let found = chain(
                temporal,
                floor,
                counts.len(),
                before.visited,
                frame,
                earlier as usize,
            );
            lemma_chain_shape(
                temporal,
                floor,
                counts.len(),
                before.visited,
                frame,
                earlier as usize,
            );
            let n = before.chains.len() as int;
            assert(after.chains[n] == found);
            assert forall|t: int, k: int|
                0 <= t < after.chains.len() && 0 <= k < after.chains[t].len() && (
                #[trigger] after.chains[t][k]).0 + 1 < counts.len() implies {
                let slot = after.chains[t][k];
                successor(temporal[slot.0 as int], floor, slot.1) matches Some(next) ==> {
                    ||| k + 1 < after.chains[t].len() && after.chains[t][k + 1] == (
                        (slot.0 + 1) as usize,
                        next,
                    )
                    ||| k + 1 == after.chains[t].len() && exists|s: int|
                        0 <= s < t && (#[trigger] after.chains[s]).contains(
                            ((slot.0 + 1) as usize, next),
                        )
                }
            } by {
                let slot = after.chains[t][k];
                if t < n {
                    assert(before.chains[t] == after.chains[t]);
                    assert(before.chains[t][k] == slot);
                    if let Some(next) = successor(temporal[slot.0 as int], floor, slot.1) {
                        if k + 1 == after.chains[t].len() {
                            let s = choose|s: int|
                                0 <= s < t && (#[trigger] before.chains[s]).contains(
                                    ((slot.0 + 1) as usize, next),
                                );
                            assert(after.chains[s] == before.chains[s]);
                        }
                    }
                } else {
                    lemma_chain_is_exhausted(
                        temporal,
                        floor,
                        counts.len(),
                        before.visited,
                        frame,
                        earlier as usize,
                        k,
                    );
                    assert(slot == found[k]);
                    if let Some(next) = successor(temporal[slot.0 as int], floor, slot.1) {
                        if before.visited.contains(((slot.0 + 1) as usize, next)) {
                            let s = choose|s: int|
                                0 <= s < before.chains.len() && (
                                #[trigger] before.chains[s]).contains(
                                    ((slot.0 + 1) as usize, next),
                                );
                            assert(after.chains[s] == before.chains[s]);
                        }
                    }
                }
            }
            assert forall|t: int| 0 <= t < after.chains.len() implies starts_before(
                #[trigger] after.chains[t],
                frame,
                index,
            ) by {
                if t < n {
                    assert(before.chains[t] == after.chains[t]);
                }
            }
            assert forall|s: int, t: int| 0 <= s < t < after.chains.len() implies starts_before(
                #[trigger] after.chains[s],
                (#[trigger] after.chains[t])[0].0 as nat,
                after.chains[t][0].1 as nat,
            ) by {
                assert(before.chains[s] == after.chains[s]);
                if t < n {
                    assert(before.chains[t] == after.chains[t]);
                }
            }
        }
    } else if frame > 0 {
        let f = (frame - 1) as nat;
        lemma_sweep_exhausts(temporal, floor, counts, f, counts[f as int]);
        lemma_sweep_keeps(temporal, floor, counts, f, counts[f as int]);
        assert forall|t: int| 0 <= t < after.chains.len() implies starts_before(
            #[trigger] after.chains[t],
            frame,
            index,
        ) by {
            assert(starts_before(after.chains[t], f, counts[f as int]));
        }
    }
}

/// The chain starts at a keypoint before the given one, frame by frame.
pub open spec fn starts_before(track: Seq<(usize, usize)>, frame: nat, index: nat) -> bool {
    &&& track.len() > 0
    &&& track[0].0 < frame || (track[0].0 == frame && track[0].1 < index)
}

/// A chain is never broken off: where a match that may be chained leads on from one of its
/// slots, and no later match of the list does, that slot comes next on the chain, or the
/// chain ends there and an earlier chain holds the slot.
pub proof fn chains_go_on_while_they_can(
    temporal: Seq<Seq<TemporalMatch>>,
    floor: Option<Scalar>,
    counts: Seq<nat>,
    t: int,
    k: int,
    m: int,
    next: usize,
)
    requires
        counts.len() <= usize::MAX,
        forall|f: int| 0 <= f < counts.len() ==> #[trigger] counts[f] <= usize::MAX,
        0 <= t < all_chains(temporal, floor, counts).len(),
        0 <= k < all_chains(temporal, floor, counts)[t].len(),
        ({
            let slot = all_chains(temporal, floor, counts)[t][k];
            &&& slot.0 + 1 < counts.len()
            &&& joins_last(temporal[slot.0 as int], floor, m, slot.1, next)
        }),
    ensures
        ({
            let chains = all_chains(temporal, floor, counts);
            let target = ((chains[t][k].0 + 1) as usize, next);
            ||| k + 1 < chains[t].len() && chains[t][k + 1] == target
            ||| k + 1 == chains[t].len() && exists|s: int|
                0 <= s < t && (#[trigger] chains[s]).contains(target)
        }),
{
    lemma_sweep_exhausts(temporal, floor, counts, counts.len(), 0);
    let slot = all_chains(temporal, floor, counts)[t][k];
    lemma_last_join_is_successor(temporal[slot.0 as int], floor, m, slot.1, next);
    assert(sweep(temporal, floor, counts, counts.len(), 0).chains[t][k] == slot);
}

/// The tracks are the chains of at least the minimum length, each once, and they come in
/// the order of the keypoints at which they start.
pub proof fn long_chains_are_tracks(
    temporal: Seq<Seq<TemporalMatch>>,
    floor: Option<Scalar>,
    counts: Seq<nat>,
    min_track_length: usize,
)
    requires
        counts.len() <= usize::MAX,
        forall|f: int| 0 <= f < counts.len() ==> #[trigger] counts[f] <= usize::MAX,
    ensures
        forall|track: Seq<(usize, usize)>| #[trigger]
            forward_tracks(temporal, floor, counts, min_track_length).contains(track)
                <==> all_chains(temporal, floor, counts).contains(track) && track.len()
                >= min_track_length,
        forall|s: int, t: int|
            0 <= s < t < forward_tracks(temporal, floor, counts, min_track_length).len()
                ==> starts_before(
                #[trigger] forward_tracks(temporal, floor, counts, min_track_length)[s],
                (#[trigger] forward_tracks(temporal, floor, counts, min_track_length)[t])[0].0 as
                    nat,
                forward_tracks(temporal, floor, counts, min_track_length)[t][0].1 as nat,
            ),
{
    lemma_sweep_exhausts(temporal, floor, counts, counts.len(), 0);
    let chains = all_chains(temporal, floor, counts);
    assert(chains == sweep(temporal, floor, counts, counts.len(), 0).chains);
    let tracks = forward_tracks(temporal, floor, counts, min_track_length);
    let p = is_long(min_track_length);
    let at = crate::sequences::lemma_filter_positions(chains, p);
    assert forall|track: Seq<(usize, usize)>| #[trigger]
        tracks.contains(track) <==> chains.contains(track) && track.len() >= min_track_length by {
        if tracks.contains(track) {
            let i = tracks.index_of(track);
            assert(chains[at[i]] == track);
        }
        if chains.contains(track) && track.len() >= min_track_length {
            let k = chains.index_of(track);
            assert(p(chains[k]));
            assert(at.contains(k));
            let i = at.index_of(k);
            assert(tracks[i] == track);
        }
    }
    assert forall|s: int, t: int| 0 <= s < t < tracks.len() implies starts_before(
        #[trigger] tracks[s],
        (#[trigger] tracks[t])[0].0 as nat,
        tracks[t][0].1 as nat,
    ) by {
        assert(at[s] < at[t]);
        assert(tracks[s] == chains[at[s]] && tracks[t] == chains[at[t]]);
    }
}

} // verus!
