//! Inertial samples for stereo bundle adjustment: a timestamped stream is sliced into one
//! window per pair of consecutive keyframes.
use crate::geometry::Point3;
use crate::scalar::Scalar;
use crate::sequences::{indices_where, lemma_indices_where};
use crate::text::{decimal, decimal_text};
use vstd::prelude::*;

verus! {

/// One inertial sample of a window: the time since the previous one in seconds, and the
/// body-frame readings, gravity not removed.
#[derive(Clone, Copy, Debug, PartialEq, Eq, Structural)]
pub struct StereoVoBaImuSample {
    pub dt: Scalar,
    pub gyro: Point3,
    pub accel: Point3,
}

/// Why a stream could not be sliced.
#[derive(Clone, Copy, Debug, PartialEq, Eq, Structural)]
pub enum ImuSliceError {
    GyroLengthMismatch { timestamps: usize, gyro: usize },
    AccelLengthMismatch { timestamps: usize, accel: usize },
    TooFewKeyframes { count: usize },
    KeyframesNotMonotonic { index: usize },
    ImuNotMonotonic { index: usize },
}

impl ImuSliceError {
    /// A description for people.
    pub fn message(&self) -> (text: String)
        ensures
            text@ == (match *self {
                ImuSliceError::GyroLengthMismatch { timestamps, gyro } =>
                    "IMU timestamp / gyro length mismatch: "@ + decimal(timestamps as nat)
                    + " vs "@ + decimal(gyro as nat),
                ImuSliceError::AccelLengthMismatch { timestamps, accel } =>
                    "IMU timestamp / accel length mismatch: "@ + decimal(timestamps as nat)
                    + " vs "@ + decimal(accel as nat),
                ImuSliceError::TooFewKeyframes { count } =>
                    "need at least 2 keyframe timestamps, got "@ + decimal(count as nat),
                ImuSliceError::KeyframesNotMonotonic { index } =>
                    "keyframe timestamps are not monotonically non-decreasing at index "@ + decimal(
                    index as nat,
                ),
                ImuSliceError::ImuNotMonotonic { index } =>
                    "IMU timestamps are not monotonically non-decreasing at index "@ + decimal(
                    index as nat,
                ),
            }),
    {
        match self {
            ImuSliceError::GyroLengthMismatch { timestamps, gyro } => String::from_str(
                "IMU timestamp / gyro length mismatch: ",
            ).concat(decimal_text(*timestamps as u128).as_str()).concat(" vs ").concat(
                decimal_text(*gyro as u128).as_str(),
            ),
            ImuSliceError::AccelLengthMismatch { timestamps, accel } => String::from_str(
                "IMU timestamp / accel length mismatch: ",
            ).concat(decimal_text(*timestamps as u128).as_str()).concat(" vs ").concat(
                decimal_text(*accel as u128).as_str(),
            ),
            ImuSliceError::TooFewKeyframes { count } => String::from_str(
                "need at least 2 keyframe timestamps, got ",
            ).concat(decimal_text(*count as u128).as_str()),
            ImuSliceError::KeyframesNotMonotonic { index } => String::from_str(
                "keyframe timestamps are not monotonically non-decreasing at index ",
            ).concat(decimal_text(*index as u128).as_str()),
            ImuSliceError::ImuNotMonotonic { index } => String::from_str(
                "IMU timestamps are not monotonically non-decreasing at index ",
            ).concat(decimal_text(*index as u128).as_str()),
        }
    }
}

/// One step of a window: a duration in nanoseconds, integrated with one sample.
#[derive(Clone, Copy, Debug, PartialEq, Eq, Structural)]
pub struct ImuStep {
    pub duration_ns: i128,
    pub sample: usize,
}

/// The first index whose successor is smaller.
pub open spec fn first_descent(times: Seq<i128>, n: int) -> Option<usize>
    decreases n,
{
    if n <= 0 {
        None
    } else {
        match first_descent(times, n - 1) {
            Some(index) => Some(index),
            None => if times[n] < times[n - 1] {
                Some((n - 1) as usize)
            } else {
                None
            },
        }
    }
}

/// The times never decrease.
pub open spec fn non_decreasing(times: Seq<i128>) -> bool {
    forall|i: int, j: int| 0 <= i <= j < times.len() ==> times[i] <= times[j]
}

proof fn lemma_no_descent(times: Seq<i128>, n: int)
    requires
        0 <= n < times.len(),
        first_descent(times, n) is None,
    ensures
        forall|i: int, j: int| 0 <= i <= j <= n ==> times[i] <= times[j],
    decreases n,
{
    if n > 0 {
        lemma_no_descent(times, n - 1);
        assert(times[n - 1] <= times[n]);
        assert forall|i: int, j: int| 0 <= i <= j <= n implies times[i] <= times[j] by {
            if j == n && i < n {
                assert(times[i] <= times[n - 1]);
            }
        }
    }
}

proof fn lemma_descent_stays(times: Seq<i128>, m: int, n: int)
    requires
        0 <= m <= n,
        first_descent(times, m) is Some,
    ensures
        first_descent(times, n) == first_descent(times, m),
    decreases n - m,
{
    if m < n {
        lemma_descent_stays(times, m, n - 1);
    }
}

/// The index of the first time that is smaller than its predecessor's.
fn find_descent(times: &[i128]) -> (found: Option<usize>)
    ensures
        found == first_descent(times@, times.len() - 1),
        found is None ==> non_decreasing(times@),
{
    let mut n: usize = 1;
    while n < times.len()
        invariant
            1 <= n,
            n <= times.len() || n == 1,
            first_descent(times@, n - 1) is None,
        decreases times.len() - n,
    {
        if times[n] < times[n - 1] {
            proof {
                lemma_descent_stays(times@, n as int, times.len() - 1);
            }
            return Some(n - 1);
        }
        n += 1;
    }
    proof {
        if times.len() > 0 {
            lemma_no_descent(times@, times.len() - 1);
        }
    }
    None
}

/// The first problem with a stream: lengths first, keyframes next, samples last.
pub open spec fn stream_problem(
    times: Seq<i128>,
    gyro: int,
    accel: int,
    keyframes: Seq<i128>,
) -> Option<ImuSliceError> {
    if gyro != times.len() {
        Some(
            ImuSliceError::GyroLengthMismatch {
                timestamps: times.len() as usize,
                gyro: gyro as usize,
            },
        )
    } else if accel != times.len() {
        Some(
            ImuSliceError::AccelLengthMismatch {
                timestamps: times.len() as usize,
                accel: accel as usize,
            },
        )
    } else if keyframes.len() < 2 {
        Some(ImuSliceError::TooFewKeyframes { count: keyframes.len() as usize })
    } else if let Some(index) = first_descent(keyframes, keyframes.len() - 1) {
        Some(ImuSliceError::KeyframesNotMonotonic { index })
    } else if let Some(index) = first_descent(times, times.len() - 1) {
        Some(ImuSliceError::ImuNotMonotonic { index })
    } else {
        None
    }
}

/// Selects the samples after `from` and up to `to`.
pub open spec fn is_in_window(times: Seq<i128>, from: i128, to: i128) -> spec_fn(int) -> bool {
    |k: int| from < times[k] <= to
}

/// The samples after `from` and up to `to`.
pub open spec fn members(times: Seq<i128>, from: i128, to: i128) -> Seq<usize> {
    indices_where(times.len(), is_in_window(times, from, to))
}

/// The time of the last of some samples, or the start of the window without any.
pub open spec fn last_time(times: Seq<i128>, samples: Seq<usize>, from: i128) -> i128 {
    if samples.len() == 0 {
        from
    } else {
        times[samples.last() as int]
    }
}

/// One step for each sample that advances the time, lasting since the sample before it.
pub open spec fn sample_steps(times: Seq<i128>, samples: Seq<usize>, from: i128) -> Seq<ImuStep>
    decreases samples.len(),
{
    if samples.len() == 0 {
        Seq::empty()
    } else {
        let rest = sample_steps(times, samples.drop_last(), from);
        let previous = last_time(times, samples.drop_last(), from);
        let duration = times[samples.last() as int] - previous;
        if duration > 0 {
            rest.push(ImuStep { duration_ns: duration as i128, sample: samples.last() })
        } else {
            rest
        }
    }
}

/// The steps from one keyframe to the next: those of the samples in between, and, where
/// they stop short of the end, one more that holds the last sample. Of samples at one time
/// the first makes a step, since a step takes time; the last may be held.
pub open spec fn window_steps(times: Seq<i128>, from: i128, to: i128) -> Seq<ImuStep> {
    let samples = members(times, from, to);
    let steps = sample_steps(times, samples, from);
    let reached = last_time(times, samples, from);
    if samples.len() > 0 && reached < to {
        steps.push(ImuStep { duration_ns: (to - reached) as i128, sample: samples.last() })
    } else {
        steps
    }
}

/// Total duration of some steps.
pub open spec fn total_ns(steps: Seq<ImuStep>) -> int
    decreases steps.len(),
{
    if steps.len() == 0 {
        0
    } else {
        total_ns(steps.drop_last()) + steps.last().duration_ns
    }
}

/// The intervals between keyframes fit into a timestamp.
pub open spec fn intervals_fit(keyframes: Seq<i128>) -> bool {
    forall|i: int|
        #![trigger keyframes[i]]
        0 <= i < keyframes.len() - 1 ==> keyframes[i + 1] - keyframes[i] <= i128::MAX
}

proof fn lemma_members_bounds(times: Seq<i128>, samples: Seq<usize>, from: i128, to: i128)
    requires
        non_decreasing(times),
        from <= to,
        to - from <= i128::MAX,
        forall|k: int|
            0 <= k < samples.len() ==> (#[trigger] samples[k]) < times.len() && from
                < times[samples[k] as int] <= to,
        forall|k: int, l: int| 0 <= k < l < samples.len() ==> samples[k] < samples[l],
    ensures
        from <= last_time(times, samples, from) <= to,
        total_ns(sample_steps(times, samples, from)) == last_time(times, samples, from) - from,
        samples.len() > 0 ==> sample_steps(times, samples, from).len() > 0,
        samples.len() == 0 ==> sample_steps(times, samples, from).len() == 0,
        forall|k: int|
            0 <= k < sample_steps(times, samples, from).len() ==> (#[trigger] sample_steps(
                times,
                samples,
                from,
            )[k]).duration_ns > 0,
        sample_steps(times, samples, from).len() <= samples.len(),
    decreases samples.len(),
{
    if samples.len() > 0 {
        let rest = samples.drop_last();
        assert forall|k: int| 0 <= k < rest.len() implies (#[trigger] rest[k]) < times.len()
            && from < times[rest[k] as int] <= to by {
            assert(rest[k] == samples[k]);
        }
        assert forall|k: int, l: int| 0 <= k < l < rest.len() implies rest[k] < rest[l] by {
            assert(samples[k] < samples[l]);
        }
        lemma_members_bounds(times, rest, from, to);
        assert(samples[samples.len() - 1] < times.len());
        if rest.len() > 0 {
            assert(samples[samples.len() - 2] < samples[samples.len() - 1]);
            assert(times[samples[samples.len() - 2] as int] <= times[samples[samples.len()
                - 1] as int]);
        }
        let steps = sample_steps(times, samples, from);
        if steps.len() > sample_steps(times, rest, from).len() {
            assert(steps.drop_last() =~= sample_steps(times, rest, from));
        }
    }
}

/// A window that holds any sample lasts exactly from one keyframe to the next, in steps of
/// positive duration; one without samples stays empty.
pub proof fn windows_span_their_interval(times: Seq<i128>, from: i128, to: i128)
    requires
        non_decreasing(times),
        times.len() <= usize::MAX,
        from <= to,
        to - from <= i128::MAX,
    ensures
        members(times, from, to).len() == 0 ==> window_steps(times, from, to).len() == 0,
        members(times, from, to).len() > 0 ==> window_steps(times, from, to).len() > 0 && total_ns(
            window_steps(times, from, to),
        ) == to - from,
        forall|k: int|
            0 <= k < window_steps(times, from, to).len() ==> (#[trigger] window_steps(
                times,
                from,
                to,
            )[k]).duration_ns > 0,
{
    let samples = members(times, from, to);
    lemma_indices_where(times.len(), is_in_window(times, from, to));
    assert forall|k: int| 0 <= k < samples.len() implies (#[trigger] samples[k]) < times.len()
        && from < times[samples[k] as int] <= to by {
        assert(is_in_window(times, from, to)(samples[k] as int));
    }
    lemma_members_bounds(times, samples, from, to);
    let steps = sample_steps(times, samples, from);
    let all = window_steps(times, from, to);
    if all.len() > steps.len() {
        assert(all.drop_last() =~= steps);
    }
}

fn slice_window(times: &[i128], from: i128, to: i128, cursor: usize) -> (result: (
    Vec<ImuStep>,
    usize,
))
    requires
        non_decreasing(times@),
        from <= to,
        to - from <= i128::MAX,
        cursor <= times.len(),
        forall|k: int| 0 <= k < cursor ==> times[k] <= from,
    ensures
        result.0@ == window_steps(times@, from, to),
        cursor <= result.1 <= times.len(),
        forall|k: int| 0 <= k < result.1 ==> times[k] <= to,
        forall|k: int| 0 <= k < result.0.len() ==> (#[trigger] result.0[k]).sample < times.len(),
{
    let ghost p = is_in_window(times@, from, to);
    let mut next: usize = cursor;
    proof {
        lemma_none_before(times@, from, to, cursor as nat);
    }
    while next < times.len() && times[next] <= from
        invariant
            cursor <= next <= times.len(),
            p == is_in_window(times@, from, to),
            forall|k: int| 0 <= k < next ==> times[k] <= from,
            indices_where(next as nat, p) == Seq::<usize>::empty(),
        decreases times.len() - next,
    {
        next += 1;
    }
    let mut steps: Vec<ImuStep> = Vec::new();
    let mut reached: i128 = from;
    let mut last: Option<usize> = None;
    let ghost mut samples: Seq<usize> = Seq::empty();
    while next < times.len() && times[next] <= to
        invariant
            cursor <= next <= times.len(),
            non_decreasing(times@),
            from <= to,
            to - from <= i128::MAX,
            p == is_in_window(times@, from, to),
            next < times.len() ==> from < times[next as int],
            forall|k: int| 0 <= k < next ==> times[k] <= to,
            samples == indices_where(next as nat, p),
            reached == last_time(times@, samples, from),
            last == (if samples.len() == 0 {
                None
            } else {
                Some(samples.last())
            }),
            last matches Some(sample) ==> sample < times.len(),
            from <= reached <= to,
            next < times.len() ==> reached <= times[next as int],
            steps@ == sample_steps(times@, samples, from),
            forall|k: int| 0 <= k < steps.len() ==> (#[trigger] steps[k]).sample < times.len(),
        decreases times.len() - next,
    {
        let time: i128 = times[next];
        let duration: i128 = time - reached;
        let ghost before = samples;
        proof {
            samples = samples.push(next);
            assert(samples.drop_last() =~= before);
            assert(indices_where((next + 1) as nat, p) == samples);
        }
        if duration > 0 {
            steps.push(ImuStep { duration_ns: duration, sample: next });
        }
        reached = time;
        last = Some(next);
        next += 1;
    }
    proof {
        lemma_none_after(times@, from, to, next as nat);
    }
    if let Some(sample) = last {
        if reached < to {
            steps.push(ImuStep { duration_ns: to - reached, sample });
        }
    }
    (steps, next)
}

proof fn lemma_none_before(times: Seq<i128>, from: i128, to: i128, n: nat)
    requires
        n <= times.len(),
        forall|k: int| 0 <= k < n ==> times[k] <= from,
    ensures
        indices_where(n, is_in_window(times, from, to)) == Seq::<usize>::empty(),
    decreases n,
{
    if n > 0 {
        lemma_none_before(times, from, to, (n - 1) as nat);
    }
}

proof fn lemma_none_after(times: Seq<i128>, from: i128, to: i128, n: nat)
    requires
        n <= times.len(),
        non_decreasing(times),
        n < times.len() ==> times[n as int] > to,
    ensures
        indices_where(n, is_in_window(times, from, to)) == indices_where(
            times.len(),
            is_in_window(times, from, to),
        ),
    decreases times.len() - n,
{
    if n < times.len() {
        if n + 1 < times.len() {
            assert(times[n as int] <= times[(n + 1) as int]);
        }
        lemma_none_after(times, from, to, n + 1);
    }
}

/// Slices timestamps into the steps between consecutive keyframes.
pub fn slice_imu_steps(times: &[i128], keyframes: &[i128]) -> (windows: Vec<Vec<ImuStep>>)
    requires
        keyframes.len() >= 2,
        non_decreasing(times@),
        non_decreasing(keyframes@),
        intervals_fit(keyframes@),
    ensures
        windows.len() == keyframes.len() - 1,
        forall|i: int|
            0 <= i < windows.len() ==> (#[trigger] windows[i])@ == window_steps(
                times@,
                keyframes[i],
                keyframes[i + 1],
            ),
        forall|i: int, k: int|
            0 <= i < windows.len() && 0 <= k < windows[i].len() ==> (
            #[trigger] windows[i][k]).sample < times.len(),
{
    let mut windows: Vec<Vec<ImuStep>> = Vec::new();
    let mut cursor: usize = 0;
    let mut i: usize = 0;
    while i + 1 < keyframes.len()
        invariant
            keyframes.len() >= 2,
            i <= keyframes.len() - 1,
            non_decreasing(times@),
            non_decreasing(keyframes@),
            intervals_fit(keyframes@),
            cursor <= times.len(),
            i < keyframes.len() ==> forall|k: int| 0 <= k < cursor ==> times[k] <= keyframes[i as int],
            windows.len() == i,
            forall|j: int|
                0 <= j < windows.len() ==> (#[trigger] windows[j])@ == window_steps(
                    times@,
                    keyframes[j],
                    keyframes[j + 1],
                ),
            forall|j: int, k: int|
                0 <= j < windows.len() && 0 <= k < windows[j].len() ==> (
                #[trigger] windows[j][k]).sample < times.len(),
        decreases keyframes.len() - i,
    {
        assert(keyframes[i as int] <= keyframes[i + 1]);
        let (window, next) = slice_window(times, keyframes[i], keyframes[i + 1], cursor);
        windows.push(window);
        cursor = next;
        i += 1;
    }
    windows
}

/// A sample of a window is what its step says: the step's duration in seconds, and the
/// readings of the step's sample.
pub open spec fn is_sample_of<S>(
    sample: StereoVoBaImuSample,
    step: ImuStep,
    gyro: Seq<Point3>,
    accel: Seq<Point3>,
    seconds: S,
) -> bool where S: Fn(i128) -> Scalar {
    &&& call_ensures(seconds, (step.duration_ns,), sample.dt)
    &&& sample.gyro == gyro[step.sample as int]
    &&& sample.accel == accel[step.sample as int]
}

/// Slices a timestamped stream into windows between consecutive keyframes.
///
/// Window `i` collects every sample after keyframe `i` and up to keyframe `i + 1`, each
/// with the time since the sample before it; a last step holds the last sample until the
/// keyframe. Windows without samples are empty. `seconds` converts nanoseconds.
pub fn slice_imu_samples_for_keyframes<S>(
    imu_timestamps_ns: &[i128],
    imu_gyro: &[Point3],
    imu_accel: &[Point3],
    keyframe_timestamps_ns: &[i128],
    seconds: S,
) -> (result: Result<Vec<Vec<StereoVoBaImuSample>>, ImuSliceError>) where S: Fn(i128) -> Scalar
    requires
        intervals_fit(keyframe_timestamps_ns@),
        forall|duration: i128| call_requires(seconds, (duration,)),
    ensures
        match stream_problem(
            imu_timestamps_ns@,
            imu_gyro.len() as int,
            imu_accel.len() as int,
            keyframe_timestamps_ns@,
        ) {
            Some(problem) => result == Err::<Vec<Vec<StereoVoBaImuSample>>, _>(problem),
            None => result matches Ok(windows) && {
                &&& windows.len() == keyframe_timestamps_ns.len() - 1
                &&& forall|i: int|
                    0 <= i < windows.len() ==> (#[trigger] windows[i]).len() == window_steps(
                        imu_timestamps_ns@,
                        keyframe_timestamps_ns[i],
                        keyframe_timestamps_ns[i + 1],
                    ).len()
                &&& forall|i: int, k: int|
                    0 <= i < windows.len() && 0 <= k < windows[i].len() ==> is_sample_of(
                        #[trigger] windows[i][k],
                        window_steps(
                            imu_timestamps_ns@,
                            keyframe_timestamps_ns[i],
                            keyframe_timestamps_ns[i + 1],
                        )[k],
                        imu_gyro@,
                        imu_accel@,
                        seconds,
                    )
            },
        },
{
    if imu_gyro.len() != imu_timestamps_ns.len() {
        return Err(
            ImuSliceError::GyroLengthMismatch {
                timestamps: imu_timestamps_ns.len(),
                gyro: imu_gyro.len(),
            },
        );
    }
    if imu_accel.len() != imu_timestamps_ns.len() {
        return Err(
            ImuSliceError::AccelLengthMismatch {
                timestamps: imu_timestamps_ns.len(),
                accel: imu_accel.len(),
            },
        );
    }
    if keyframe_timestamps_ns.len() < 2 {
        return Err(ImuSliceError::TooFewKeyframes { count: keyframe_timestamps_ns.len() });
    }
    if let Some(index) = find_descent(keyframe_timestamps_ns) {
        return Err(ImuSliceError::KeyframesNotMonotonic { index });
    }
    if let Some(index) = find_descent(imu_timestamps_ns) {
        return Err(ImuSliceError::ImuNotMonotonic { index });
    }
    let steps = slice_imu_steps(imu_timestamps_ns, keyframe_timestamps_ns);
    let mut windows: Vec<Vec<StereoVoBaImuSample>> = Vec::new();
    let mut i: usize = 0;
    while i < steps.len()
        invariant
            i <= steps.len(),
            imu_gyro.len() == imu_timestamps_ns.len(),
            imu_accel.len() == imu_timestamps_ns.len(),
            forall|duration: i128| call_requires(seconds, (duration,)),
            forall|j: int, k: int|
                0 <= j < steps.len() && 0 <= k < steps[j].len() ==> (#[trigger] steps[j][k]).sample
                    < imu_timestamps_ns.len(),
            windows.len() == i,
            forall|j: int| 0 <= j < i ==> (#[trigger] windows[j]).len() == steps[j].len(),
            forall|j: int, k: int|
                0 <= j < i && 0 <= k < windows[j].len() ==> is_sample_of(
                    #[trigger] windows[j][k],
                    steps[j][k],
                    imu_gyro@,
                    imu_accel@,
                    seconds,
                ),
        decreases steps.len() - i,
    {
        let list = &steps[i];
        let mut window: Vec<StereoVoBaImuSample> = Vec::new();
        let mut k: usize = 0;
        while k < list.len()
            invariant
                k <= list.len(),
                imu_gyro.len() == imu_timestamps_ns.len(),
                imu_accel.len() == imu_timestamps_ns.len(),
                forall|duration: i128| call_requires(seconds, (duration,)),
                forall|l: int|
                    0 <= l < list.len() ==> (#[trigger] list[l]).sample < imu_timestamps_ns.len(),
                window.len() == k,
                forall|l: int|
                    0 <= l < k ==> is_sample_of(
                        #[trigger] window[l],
                        list[l],
                        imu_gyro@,
                        imu_accel@,
                        seconds,
                    ),
            decreases list.len() - k,
        {
            let step = list[k];
            let dt = seconds(step.duration_ns);
            window.push(
                StereoVoBaImuSample {
                    dt,
                    gyro: imu_gyro[step.sample],
                    accel: imu_accel[step.sample],
                },
            );
            k += 1;
        }
        windows.push(window);
        i += 1;
    }
    proof {
        assert forall|i: int, k: int|
            0 <= i < windows.len() && 0 <= k < windows[i].len() implies is_sample_of(
            #[trigger] windows[i][k],
            window_steps(
                imu_timestamps_ns@,
                keyframe_timestamps_ns[i],
                keyframe_timestamps_ns[i + 1],
            )[k],
            imu_gyro@,
            imu_accel@,
            seconds,
        ) by {
            assert(steps[i]@ == window_steps(
                imu_timestamps_ns@,
                keyframe_timestamps_ns[i],
                keyframe_timestamps_ns[i + 1],
            ));
        }
    }
    Ok(windows)
}

/// The first descent is where a time is followed by an earlier one for the first time; there
/// is none exactly where times never decrease.
pub proof fn descents_are_found_first(times: Seq<i128>)
    requires
        times.len() <= usize::MAX,
    ensures
        first_descent(times, times.len() - 1) matches Some(index) ==> {
            &&& index + 1 < times.len()
            &&& times[index + 1] < times[index as int]
            &&& forall|k: int| #![trigger times[k]] 0 <= k < index ==> times[k] <= times[k + 1]
        },
        first_descent(times, times.len() - 1) is None <==> forall|k: int|
            #![trigger times[k]]
            0 <= k < times.len() - 1 ==> times[k] <= times[k + 1],
{
    lemma_first_descent(times, times.len() - 1);
}

proof fn lemma_first_descent(times: Seq<i128>, n: int)
    requires
        n < times.len() <= usize::MAX,
    ensures
        first_descent(times, n) matches Some(index) ==> {
            &&& index < n
            &&& times[index + 1] < times[index as int]
            &&& forall|k: int| #![trigger times[k]] 0 <= k < index ==> times[k] <= times[k + 1]
        },
        first_descent(times, n) is None <==> forall|k: int|
            #![trigger times[k]]
            0 <= k < n ==> times[k] <= times[k + 1],
    decreases n,
{
    if n > 0 {
        lemma_first_descent(times, n - 1);
        assert(times[n - 1] == times[n - 1]);
    }
}

/// A stream is sound where there is a rotation rate and an acceleration for every time, at
/// least two keyframes, and neither times decrease; what is wrong first is reported.
pub proof fn sound_streams_have_no_problem(
    times: Seq<i128>,
    gyro: int,
    accel: int,
    keyframes: Seq<i128>,
)
    requires
        times.len() <= usize::MAX,
        keyframes.len() <= usize::MAX,
    ensures
        stream_problem(times, gyro, accel, keyframes) is None <==> {
            &&& gyro == times.len()
            &&& accel == times.len()
            &&& keyframes.len() >= 2
            &&& forall|k: int|
                #![trigger keyframes[k]]
                0 <= k < keyframes.len() - 1 ==> keyframes[k] <= keyframes[k + 1]
            &&& forall|k: int|
                #![trigger times[k]]
                0 <= k < times.len() - 1 ==> times[k] <= times[k + 1]
        },
        stream_problem(times, gyro, accel, keyframes) matches Some(problem) ==> match problem {
            ImuSliceError::GyroLengthMismatch { timestamps, .. } => gyro != times.len()
                && timestamps == times.len(),
            ImuSliceError::AccelLengthMismatch { timestamps, .. } => gyro == times.len() && accel
                != times.len() && timestamps == times.len(),
            ImuSliceError::TooFewKeyframes { count } => gyro == times.len() && accel == times.len()
                && count == keyframes.len() && count < 2,
            ImuSliceError::KeyframesNotMonotonic { index } => gyro == times.len() && accel
                == times.len() && index + 1 < keyframes.len() && keyframes[index + 1]
                < keyframes[index as int],
            ImuSliceError::ImuNotMonotonic { index } => gyro == times.len() && accel == times.len()
                && index + 1 < times.len() && times[index + 1] < times[index as int],
        },
{
    descents_are_found_first(times);
    descents_are_found_first(keyframes);
}

/// The samples of a window come after its start and not after its end, and all such samples
/// are in it, in order.
pub proof fn windows_hold_the_samples_between(
    times: Seq<i128>,
    from: i128,
    to: i128,
    k: usize,
)
    requires
        times.len() <= usize::MAX,
    ensures
        members(times, from, to).contains(k) <==> k < times.len() && from < times[k as int]
            && times[k as int] <= to,
        forall|i: int, j: int|
            0 <= i < j < members(times, from, to).len() ==> (#[trigger] members(times, from, to)[i])
                < #[trigger] members(times, from, to)[j],
{
    let p = is_in_window(times, from, to);
    lemma_indices_where(times.len(), p);
    let found = members(times, from, to);
    if found.contains(k) {
        assert(p(found[found.index_of(k)] as int));
    }
    if k < times.len() && p(k as int) {
        assert(found.contains(k));
    }
}

/// Where the time stands after the first `n` steps.
pub open spec fn reached_after(steps: Seq<ImuStep>, from: i128, n: int) -> int {
    from + total_ns(steps.take(n))
}

/// Each step of a window ends at the time of the sample that it holds; only the last may
/// instead hold the last sample on until the window ends.
pub proof fn steps_end_at_their_samples(times: Seq<i128>, from: i128, to: i128, k: int)
    requires
        non_decreasing(times),
        times.len() <= usize::MAX,
        from <= to,
        to - from <= i128::MAX,
        0 <= k < window_steps(times, from, to).len(),
    ensures
        ({
            let steps = window_steps(times, from, to);
            let sample = steps[k].sample;
            &&& members(times, from, to).contains(sample)
            &&& reached_after(steps, from, k + 1) == times[sample as int] || (k == steps.len() - 1
                && reached_after(steps, from, k + 1) == to && sample == members(
                times,
                from,
                to,
            ).last())
        }),
{
    let samples = members(times, from, to);
    let p = is_in_window(times, from, to);
    lemma_indices_where(times.len(), p);
    assert forall|i: int| 0 <= i < samples.len() implies (#[trigger] samples[i]) < times.len()
        && from < times[samples[i] as int] <= to by {
        assert(p(samples[i] as int));
    }
    let inner = sample_steps(times, samples, from);
    let steps = window_steps(times, from, to);
    lemma_step_ends(times, samples, from, to);
    if k < inner.len() {
        assert(steps.take(k + 1) =~= inner.take(k + 1));
        assert(steps[k] == inner[k]);
    } else {
        assert(steps.take(k + 1) =~= steps);
        assert(steps.drop_last() =~= inner);
        assert(inner.take(inner.len() as int) =~= inner);
        assert(samples.contains(samples.last()));
    }
}

proof fn lemma_step_ends(times: Seq<i128>, samples: Seq<usize>, from: i128, to: i128)
    requires
        non_decreasing(times),
        times.len() <= usize::MAX,
        to - from <= i128::MAX,
        forall|i: int|
            0 <= i < samples.len() ==> (#[trigger] samples[i]) < times.len() && from
                < times[samples[i] as int] <= to,
        forall|i: int, j: int| 0 <= i < j < samples.len() ==> samples[i] < samples[j],
    ensures
        total_ns(sample_steps(times, samples, from)) == last_time(times, samples, from) - from,
        forall|k: int|
            0 <= k < sample_steps(times, samples, from).len() ==> ({
                let step = #[trigger] sample_steps(times, samples, from)[k];
                &&& samples.contains(step.sample)
                &&& reached_after(sample_steps(times, samples, from), from, k + 1)
                    == times[step.sample as int]
            }),
    decreases samples.len(),
{
    if samples.len() > 0 {
        let rest = samples.drop_last();
        let n = rest.len() as int;
        assert forall|i: int| 0 <= i < rest.len() implies (#[trigger] rest[i]) < times.len() && from
            < times[rest[i] as int] <= to by {
            assert(rest[i] == samples[i]);
        }
        lemma_step_ends(times, rest, from, to);
        let before = sample_steps(times, rest, from);
        let after = sample_steps(times, samples, from);
        let previous = last_time(times, rest, from);
        let here = times[samples.last() as int];
        assert(samples[n] == samples.last());
        if rest.len() > 0 {
            assert(samples[n - 1] == rest.last());
            assert(samples[n - 1] < samples[n]);
            assert(times[samples[n - 1] as int] <= here);
        }
        if here > previous {
            assert(after.drop_last() =~= before);
            assert(after.take(after.len() as int) =~= after);
        }
        assert forall|k: int| 0 <= k < after.len() implies ({
            let step = #[trigger] after[k];
            &&& samples.contains(step.sample)
            &&& reached_after(after, from, k + 1) == times[step.sample as int]
        }) by {
            if k < before.len() {
                assert(after[k] == before[k]);
                assert(after.take(k + 1) =~= before.take(k + 1));
                assert(rest.contains(before[k].sample));
                assert(samples[rest.index_of(before[k].sample)] == before[k].sample);
            } else {
                assert(samples.contains(samples[n]));
            }
        }
    }
}

/// A sample of a window carries the rates and accelerations of the sample that its step holds,
/// for as long as the step lasts.
pub proof fn samples_carry_what_their_step_holds<S>(
    sample: StereoVoBaImuSample,
    step: ImuStep,
    gyro: Seq<Point3>,
    accel: Seq<Point3>,
    seconds: S,
) where S: Fn(i128) -> Scalar
    requires
        is_sample_of(sample, step, gyro, accel, seconds),
    ensures
        sample.gyro == gyro[step.sample as int],
        sample.accel == accel[step.sample as int],
        call_ensures(seconds, (step.duration_ns,), sample.dt),
{
}

} // verus!
