//! Building the windows of a partition, with windows that fail to build merged
//! into their neighbours.
use crate::submap_partition::{chained, SubmapWindow};
use std::ops::Range;
use vstd::prelude::*;

verus! {

/// Why [`widen_and_build`] performed one merge.
#[derive(Clone, Copy, Debug, PartialEq, Eq, Structural)]
pub enum WidenMergeReason {
    /// The window failed to build for a reason that widening may cure.
    UnbuildableWindow,
    /// The window was built, but forward widening left its start at that of the
    /// window that first failed, so that the images shared with a
    /// still-independent predecessor all lie in the span that could not be built.
    PostWidenOverlapSafety,
}

/// One merge as it is reported: its number within its span, the range of the window before
/// and after it, and why it was made.
#[verifier::ext_equal]
pub struct MergeReport {
    pub number: int,
    pub before: Range<usize>,
    pub after: Range<usize>,
    pub reason: WidenMergeReason,
}

/// The merge was reported.
pub open spec fn was_reported<O>(on_widen: O, report: MergeReport) -> bool where
    O: FnMut(usize, &Range<usize>, &Range<usize>, WidenMergeReason),
{
    call_ensures(
        on_widen,
        (report.number as usize, &report.before, &report.after, report.reason),
        (),
    )
}

/// Where a run of [`widen_and_build`] stands. The windows before `index` are
/// built; `merges` counts the merges of the span at `index`, which began at
/// `original_start`. `reports` are the merges of the whole run.
#[verifier::ext_equal]
pub struct WidenState<T> {
    pub windows: Seq<SubmapWindow>,
    pub built: Seq<T>,
    pub index: int,
    pub merges: int,
    pub original_start: int,
    pub reports: Seq<MergeReport>,
}

/// The merge budget and the overlap that must lie outside a failed span.
pub struct WidenLimits {
    pub max_merges: int,
    pub min_overlap: int,
}

/// What happens after one attempt to build a window.
pub enum WidenStep<T, E> {
    /// The next window, or the same one merged with a neighbour, is attempted.
    Next(WidenState<T>),
    /// The run ends with this error.
    Stop(E),
}

/// The two neighbouring windows `k` and `k + 1` as one.
pub open spec fn merged(windows: Seq<SubmapWindow>, k: int) -> SubmapWindow {
    SubmapWindow {
        image_range: Range {
            start: windows[k].image_range.start,
            end: windows[k + 1].image_range.end,
        },
        outgoing_seam_support: windows[k + 1].outgoing_seam_support,
    }
}

/// The windows with `k` and `k + 1` merged.
pub open spec fn merge_at(windows: Seq<SubmapWindow>, k: int) -> Seq<SubmapWindow> {
    windows.remove(k + 1).update(k, merged(windows, k))
}

/// Start of window `k`, or zero past the end.
pub open spec fn start_of(windows: Seq<SubmapWindow>, k: int) -> int {
    if 0 <= k < windows.len() {
        windows[k].image_range.start as int
    } else {
        0
    }
}

impl<T> WidenState<T> {
    /// The state before the first attempt.
    pub open spec fn initial(windows: Seq<SubmapWindow>) -> Self {
        WidenState {
            windows,
            built: Seq::empty(),
            index: 0,
            merges: 0,
            original_start: start_of(windows, 0),
            reports: Seq::empty(),
        }
    }

    /// The window to build next.
    pub open spec fn window(self) -> SubmapWindow {
        self.windows[self.index]
    }

    /// The report of a merge that gives the window at `index` this range.
    pub open spec fn report(self, after: Range<usize>, reason: WidenMergeReason) -> MergeReport {
        MergeReport {
            number: self.merges + 1,
            before: self.window().image_range,
            after,
            reason,
        }
    }

    /// The window at `index` absorbs its successor, which is not built yet.
    pub open spec fn absorb_successor(self) -> Self {
        WidenState {
            windows: merge_at(self.windows, self.index),
            merges: self.merges + 1,
            reports: self.reports.push(
                self.report(
                    merged(self.windows, self.index).image_range,
                    WidenMergeReason::UnbuildableWindow,
                ),
            ),
            ..self
        }
    }

    /// The window at `index` absorbs its predecessor, whose result is dropped.
    pub open spec fn absorb_predecessor(self, reason: WidenMergeReason) -> Self {
        WidenState {
            windows: merge_at(self.windows, self.index - 1),
            built: self.built.drop_last(),
            index: self.index - 1,
            merges: self.merges + 1,
            reports: self.reports.push(
                self.report(merged(self.windows, self.index - 1).image_range, reason),
            ),
            ..self
        }
    }

    /// The window at `index` is accepted with its result.
    pub open spec fn accept(self, value: T) -> Self {
        WidenState {
            windows: self.windows,
            built: self.built.push(value),
            index: self.index + 1,
            merges: 0,
            original_start: start_of(self.windows, self.index + 1),
            reports: self.reports,
        }
    }

    /// The window was widened, budget is left, and fewer than the required images
    /// shared with the predecessor lie before the span that first failed.
    pub open spec fn needs_safety_merge(self, limits: WidenLimits) -> bool {
        let margin = if self.original_start >= self.window().image_range.start {
            self.original_start - self.window().image_range.start
        } else {
            0
        };
        0 < self.merges < limits.max_merges && self.index > 0 && margin < limits.min_overlap
    }

    /// The step after a build that succeeded.
    pub open spec fn after_success(self, limits: WidenLimits, value: T) -> Self {
        if self.needs_safety_merge(limits) {
            self.absorb_predecessor(WidenMergeReason::PostWidenOverlapSafety)
        } else {
            self.accept(value)
        }
    }

    /// The step after a build that failed; `widenable` is the verdict on the error.
    pub open spec fn after_failure<E>(self, limits: WidenLimits, error: E, widenable: bool) -> WidenStep<
        T,
        E,
    > {
        if self.merges < limits.max_merges && widenable {
            if self.index + 1 < self.windows.len() {
                WidenStep::Next(self.absorb_successor())
            } else if self.index > 0 {
                WidenStep::Next(self.absorb_predecessor(WidenMergeReason::UnbuildableWindow))
            } else {
                WidenStep::Stop(error)
            }
        } else {
            WidenStep::Stop(error)
        }
    }

    /// Position, results and windows are consistent.
    pub open spec fn consistent(self) -> bool {
        &&& 0 <= self.index <= self.windows.len()
        &&& self.built.len() == self.index
        &&& self.merges >= 0
    }
}

/// One attempt leads from `state` to `next`: the build of the window returned
/// something that makes the run go on, and a merge was reported.
pub open spec fn widen_advances<T, E, B, W, O>(
    state: WidenState<T>,
    next: WidenState<T>,
    limits: WidenLimits,
    build: B,
    is_widenable: W,
    on_widen: O,
) -> bool where B: FnMut(&SubmapWindow) -> Result<T, E>, W: Fn(&E) -> bool, O: FnMut(usize, &Range<usize>, &Range<usize>, WidenMergeReason) {
    &&& state.index < state.windows.len()
    &&& next.reports.len() > state.reports.len() ==> was_reported(on_widen, next.reports.last())
    &&& exists|outcome: Result<T, E>| #[trigger]
        call_ensures(build, (&state.window(),), outcome) && match outcome {
            Ok(value) => next == state.after_success(limits, value),
            Err(error) => call_ensures(is_widenable, (&error,), true) && state.after_failure(
                limits,
                error,
                true,
            ) == WidenStep::<T, E>::Next(next),
        }
}

/// One attempt ends the run with `error`: the build failed with it, and it is not
/// widenable, the budget is spent, or no neighbour is left.
pub open spec fn widen_stops<T, E, B, W>(
    state: WidenState<T>,
    error: E,
    limits: WidenLimits,
    build: B,
    is_widenable: W,
) -> bool where B: FnMut(&SubmapWindow) -> Result<T, E>, W: Fn(&E) -> bool {
    &&& state.index < state.windows.len()
    &&& call_ensures(build, (&state.window(),), Err::<T, E>(error))
    &&& {
        ||| state.merges >= limits.max_merges
        ||| call_ensures(is_widenable, (&error,), false)
        ||| state.windows.len() == 1
    }
}

/// A history of states in which each one follows from the one before by an attempt.
#[verifier::opaque]
pub open spec fn is_widen_history<T, E, B, W, O>(
    history: Seq<WidenState<T>>,
    windows: Seq<SubmapWindow>,
    limits: WidenLimits,
    build: B,
    is_widenable: W,
    on_widen: O,
) -> bool where B: FnMut(&SubmapWindow) -> Result<T, E>, W: Fn(&E) -> bool, O: FnMut(usize, &Range<usize>, &Range<usize>, WidenMergeReason) {
    &&& history.len() > 0
    &&& history[0] == WidenState::<T>::initial(windows)
    &&& forall|k: int|
        #![trigger history[k]]
        0 <= k < history.len() - 1 ==> widen_advances::<T, E, B, W, O>(
            history[k],
            history[k + 1],
            limits,
            build,
            is_widenable,
            on_widen,
        )
}

/// The result of a run: every window of the last state with what it was built to,
/// or the error that ended the run.
pub open spec fn is_widen_result<T, E, B, W>(
    last: WidenState<T>,
    result: Result<Vec<(SubmapWindow, T)>, E>,
    limits: WidenLimits,
    build: B,
    is_widenable: W,
) -> bool where B: FnMut(&SubmapWindow) -> Result<T, E>, W: Fn(&E) -> bool {
    match result {
        Ok(outputs) => {
            &&& last.index == last.windows.len()
            &&& outputs.len() == last.windows.len()
            &&& forall|k: int|
                0 <= k < outputs.len() ==> #[trigger] outputs[k] == (last.windows[k], last.built[k])
        },
        Err(error) => widen_stops::<T, E, B, W>(last, error, limits, build, is_widenable),
    }
}

/// `result` is that of a run with this history.
pub open spec fn is_widen_run<T, E, B, W, O>(
    history: Seq<WidenState<T>>,
    windows: Seq<SubmapWindow>,
    limits: WidenLimits,
    build: B,
    is_widenable: W,
    on_widen: O,
    result: Result<Vec<(SubmapWindow, T)>, E>,
) -> bool where B: FnMut(&SubmapWindow) -> Result<T, E>, W: Fn(&E) -> bool, O: FnMut(usize, &Range<usize>, &Range<usize>, WidenMergeReason) {
    &&& is_widen_history::<T, E, B, W, O>(history, windows, limits, build, is_widenable, on_widen)
    &&& is_widen_result::<T, E, B, W>(history.last(), result, limits, build, is_widenable)
}

/// The limits as given by the caller.
pub open spec fn widen_limits(max_merges: usize, min_post_widen_overlap_images: usize) -> WidenLimits {
    WidenLimits {
        max_merges: max_merges as int,
        min_overlap: min_post_widen_overlap_images as int,
    }
}

/// Builds each window in `windows` via `build`, widening on a failure that
/// `is_widenable` accepts by merging the failing window with a neighbour and
/// retrying, instead of propagating the first error.
///
/// A failing window is merged with its successor and rebuilt; the final window is
/// merged with its predecessor instead, whose result is dropped. At most
/// `max_merges` windows are absorbed per contiguous failing span. A window that
/// was widened and built absorbs its predecessor as well while fewer than
/// `min_post_widen_overlap_images` of the shared images lie before the span that
/// first failed and budget is left.
///
/// `on_widen(merge_number, absorbed_range, resulting_range, reason)` is invoked
/// once per merge, in order, purely for observability.
pub fn widen_and_build<T, E, B, W, O>(
    windows: Vec<SubmapWindow>,
    max_merges: usize,
    min_post_widen_overlap_images: usize,
    build: B,
    is_widenable: W,
    on_widen: O,
) -> (result: Result<Vec<(SubmapWindow, T)>, E>) where
    B: FnMut(&SubmapWindow) -> Result<T, E>,
    W: Fn(&E) -> bool,
    O: FnMut(usize, &Range<usize>, &Range<usize>, WidenMergeReason),

    requires
        forall|window: SubmapWindow| call_requires(build, (&window,)),
        forall|error: E| call_requires(is_widenable, (&error,)),
        forall|n: usize, before: Range<usize>, after: Range<usize>, reason: WidenMergeReason|
            call_requires(on_widen, (n, &before, &after, reason)),
    ensures
        exists|history: Seq<WidenState<T>>| #[trigger]
            is_widen_run(
                history,
                windows@,
                widen_limits(max_merges, min_post_widen_overlap_images),
                build,
                is_widenable,
                on_widen,
                result,
            ),
{
    let ghost limits = widen_limits(max_merges, min_post_widen_overlap_images);
    let ghost mut history: Seq<WidenState<T>> = seq![WidenState::<T>::initial(windows@)];
    proof {
        lemma_history_starts::<T, E, B, W, O>(windows@, limits, build, is_widenable, on_widen);
    }
    let mut current = windows;
    let mut builder = build;
    let mut report = on_widen;
    let mut outputs: Vec<(SubmapWindow, T)> = Vec::new();
    let mut index: usize = 0;
    let mut merges: usize = 0;
    let mut original_start: usize = if current.len() > 0 {
        current[0].image_range.start
    } else {
        0
    };
    while index < current.len()
        invariant
            forall|window: SubmapWindow| call_requires(builder, (&window,)),
            forall|error: E| call_requires(is_widenable, (&error,)),
            forall|n: usize, before: Range<usize>, after: Range<usize>, reason: WidenMergeReason|
                call_requires(report, (n, &before, &after, reason)),
            builder == build,
            report == on_widen,
            limits == widen_limits(max_merges, min_post_widen_overlap_images),
            is_widen_history::<T, E, B, W, O>(
                history,
                windows@,
                limits,
                build,
                is_widenable,
                on_widen,
            ),
            history.last().windows == current@,
            history.last().index == index,
            history.last().merges == merges,
            history.last().original_start == original_start,
            history.last().built.len() == outputs.len(),
            outputs.len() == index,
            index <= current.len(),
            merges <= max_merges,
            forall|k: int|
                0 <= k < outputs.len() ==> #[trigger] outputs[k] == (
                    current@[k],
                    history.last().built[k],
                ),
        decreases current.len(), current.len() - index,
    {
        let ghost state = history.last();
        let outcome = builder(&current[index]);
        let ghost seen = outcome;
        assert(call_ensures(build, (&state.window(),), outcome));
        match outcome {
            Ok(value) => {
                let start: usize = current[index].image_range.start;
                let margin: usize = if original_start >= start { original_start - start } else { 0 };
                if merges > 0 && merges < max_merges && index > 0 && margin
                    < min_post_widen_overlap_images {
                    merges += 1;
                    let ghost kept = outputs@;
                    let dropped = outputs.pop();
                    absorb_predecessor(
                        &mut current,
                        index,
                        merges,
                        &mut report,
                        WidenMergeReason::PostWidenOverlapSafety,
                    );
                    index -= 1;
                    proof {
                        let next = state.absorb_predecessor(
                            WidenMergeReason::PostWidenOverlapSafety,
                        );
                        assert(next == state.after_success(limits, value));
                        lemma_advances(state, seen, next, limits, build, is_widenable, on_widen);
                        lemma_history_grows(
                            history,
                            next,
                            windows@,
                            limits,
                            build,
                            is_widenable,
                            on_widen,
                        );
                        history = history.push(next);
                    }
                } else {
                    outputs.push((current[index].clone(), value));
                    index += 1;
                    merges = 0;
                    original_start =
                    if index < current.len() {
                        current[index].image_range.start
                    } else {
                        0
                    };
                    proof {
                        let next = state.accept(value);
                        assert(next == state.after_success(limits, value));
                        lemma_advances(state, seen, next, limits, build, is_widenable, on_widen);
                        lemma_history_grows(
                            history,
                            next,
                            windows@,
                            limits,
                            build,
                            is_widenable,
                            on_widen,
                        );
                        history = history.push(next);
                    }
                }
            },
            Err(error) => {
                if merges >= max_merges || !is_widenable(&error) || current.len() == 1 {
                    assert(widen_stops::<T, E, B, W>(state, error, limits, build, is_widenable));
                    let result: Result<Vec<(SubmapWindow, T)>, E> = Err(error);
                    assert(is_widen_run(
                        history,
                        windows@,
                        limits,
                        build,
                        is_widenable,
                        on_widen,
                        result,
                    ));
                    return result;
                }
                merges += 1;
                if index + 1 < current.len() {
                    let next = current.remove(index + 1);
                    let before: Range<usize> = current[index].image_range.start..current[index].image_range.end;
                    let wider = SubmapWindow {
                        image_range: before.start..next.image_range.end,
                        outgoing_seam_support: next.outgoing_seam_support,
                    };
                    current.set(index, wider);
                    report(
                        merges,
                        &before,
                        &current[index].image_range,
                        WidenMergeReason::UnbuildableWindow,
                    );
                    proof {
                        let next = state.absorb_successor();
                        assert(current@ =~= next.windows);
                        lemma_advances(state, seen, next, limits, build, is_widenable, on_widen);
                        lemma_history_grows(
                            history,
                            next,
                            windows@,
                            limits,
                            build,
                            is_widenable,
                            on_widen,
                        );
                        history = history.push(next);
                    }
                } else {
                    let dropped = outputs.pop();
                    absorb_predecessor(
                        &mut current,
                        index,
                        merges,
                        &mut report,
                        WidenMergeReason::UnbuildableWindow,
                    );
                    index -= 1;
                    proof {
                        let next = state.absorb_predecessor(
                            WidenMergeReason::UnbuildableWindow,
                        );
                        lemma_advances(state, seen, next, limits, build, is_widenable, on_widen);
                        lemma_history_grows(
                            history,
                            next,
                            windows@,
                            limits,
                            build,
                            is_widenable,
                            on_widen,
                        );
                        history = history.push(next);
                    }
                }
            },
        }
    }
    let result: Result<Vec<(SubmapWindow, T)>, E> = Ok(outputs);
    assert(is_widen_run(history, windows@, limits, build, is_widenable, on_widen, result));
    result
}

/// Merges window `index` into its predecessor and reports the merge.
fn absorb_predecessor<O>(
    windows: &mut Vec<SubmapWindow>,
    index: usize,
    merges: usize,
    on_widen: &mut O,
    reason: WidenMergeReason,
) where O: FnMut(usize, &Range<usize>, &Range<usize>, WidenMergeReason)
    requires
        0 < index < old(windows).len(),
        forall|n: usize, before: Range<usize>, after: Range<usize>, reason: WidenMergeReason|
            call_requires(*old(on_widen), (n, &before, &after, reason)),
    ensures
        final(windows)@ == merge_at(old(windows)@, index - 1),
        *final(on_widen) == *old(on_widen),
        call_ensures(
            *old(on_widen),
            (
                merges,
                &old(windows)[index as int].image_range,
                &merged(old(windows)@, index - 1).image_range,
                reason,
            ),
            (),
        ),
{
    let ghost first = windows@;
    let prev = windows.remove(index - 1);
    let merged_index: usize = index - 1;
    let before: Range<usize> =
        windows[merged_index].image_range.start..windows[merged_index].image_range.end;
    let support: usize = windows[merged_index].outgoing_seam_support;
    let wider = SubmapWindow {
        image_range: prev.image_range.start..before.end,
        outgoing_seam_support: support,
    };
    windows.set(merged_index, wider);
    assert(windows@ =~= merge_at(first, index - 1));
    on_widen(merges, &before, &windows[merged_index].image_range, reason);
}

proof fn lemma_history_starts<T, E, B, W, O>(
    windows: Seq<SubmapWindow>,
    limits: WidenLimits,
    build: B,
    is_widenable: W,
    on_widen: O,
) where B: FnMut(&SubmapWindow) -> Result<T, E>, W: Fn(&E) -> bool, O: FnMut(usize, &Range<usize>, &Range<usize>, WidenMergeReason)
    ensures
        is_widen_history::<T, E, B, W, O>(
            seq![WidenState::<T>::initial(windows)],
            windows,
            limits,
            build,
            is_widenable,
            on_widen,
        ),
{
    reveal(is_widen_history);
}

proof fn lemma_advances<T, E, B, W, O>(
    state: WidenState<T>,
    outcome: Result<T, E>,
    next: WidenState<T>,
    limits: WidenLimits,
    build: B,
    is_widenable: W,
    on_widen: O,
) where B: FnMut(&SubmapWindow) -> Result<T, E>, W: Fn(&E) -> bool, O: FnMut(usize, &Range<usize>, &Range<usize>, WidenMergeReason)
    requires
        state.index < state.windows.len(),
        next.reports.len() > state.reports.len() ==> was_reported(on_widen, next.reports.last()),
        call_ensures(build, (&state.window(),), outcome),
        match outcome {
            Ok(value) => next == state.after_success(limits, value),
            Err(error) => call_ensures(is_widenable, (&error,), true) && state.after_failure(
                limits,
                error,
                true,
            ) == WidenStep::<T, E>::Next(next),
        },
    ensures
        widen_advances::<T, E, B, W, O>(state, next, limits, build, is_widenable, on_widen),
{
}

proof fn lemma_history_grows<T, E, B, W, O>(
    history: Seq<WidenState<T>>,
    next: WidenState<T>,
    windows: Seq<SubmapWindow>,
    limits: WidenLimits,
    build: B,
    is_widenable: W,
    on_widen: O,
) where B: FnMut(&SubmapWindow) -> Result<T, E>, W: Fn(&E) -> bool, O: FnMut(usize, &Range<usize>, &Range<usize>, WidenMergeReason)
    requires
        is_widen_history::<T, E, B, W, O>(history, windows, limits, build, is_widenable, on_widen),
        widen_advances::<T, E, B, W, O>(
            history.last(),
            next,
            limits,
            build,
            is_widenable,
            on_widen,
        ),
    ensures
        is_widen_history::<T, E, B, W, O>(
            history.push(next),
            windows,
            limits,
            build,
            is_widenable,
            on_widen,
        ),
{
    reveal(is_widen_history);
    let longer = history.push(next);
    assert forall|k: int| #![trigger longer[k]] 0 <= k < longer.len() - 1 implies widen_advances::<T, E, B, W, O>(longer[k], longer[k + 1], limits, build, is_widenable, on_widen) by {
        if k < history.len() - 1 {
            assert(longer[k] == history[k]);
        }
    }
}

/// What every state of a run satisfies, whatever the builds return.
spec fn widen_invariant<T, E, B>(
    state: WidenState<T>,
    windows: Seq<SubmapWindow>,
    overlap: int,
    limits: WidenLimits,
    build: B,
) -> bool where B: FnMut(&SubmapWindow) -> Result<T, E> {
    &&& state.consistent()
    &&& state.merges <= limits.max_merges
    &&& 0 < state.windows.len() <= windows.len()
    &&& state.windows[0].image_range.start == windows[0].image_range.start
    &&& state.windows.last().image_range.end == windows.last().image_range.end
    &&& chained(windows, overlap) ==> chained(state.windows, overlap)
    &&& forall|k: int|
        0 <= k < state.index ==> call_ensures(
            build,
            (&#[trigger] state.windows[k],),
            Ok::<T, E>(state.built[k]),
        )
}

proof fn lemma_merge_at(windows: Seq<SubmapWindow>, k: int, overlap: int)
    requires
        0 <= k < windows.len() - 1,
    ensures
        merge_at(windows, k).len() == windows.len() - 1,
        merge_at(windows, k)[0].image_range.start == windows[0].image_range.start,
        merge_at(windows, k).last().image_range.end == windows.last().image_range.end,
        forall|j: int| 0 <= j < k ==> #[trigger] merge_at(windows, k)[j] == windows[j],
        chained(windows, overlap) ==> chained(merge_at(windows, k), overlap),
{
    let after = merge_at(windows, k);
    if chained(windows, overlap) {
        assert forall|j: int| #![trigger after[j]] 0 <= j < after.len() - 1 implies after[j].image_range.end
            == after[j + 1].image_range.start + overlap by {
            if j < k {
                assert(after[j] == windows[j]);
            } else if j == k {
                assert(windows[k + 1].image_range.end == windows[k + 2].image_range.start
                    + overlap);
            } else {
                assert(after[j] == windows[j + 1]);
            }
        }
    }
}

proof fn lemma_widen_invariant<T, E, B, W, O>(
    history: Seq<WidenState<T>>,
    k: int,
    windows: Seq<SubmapWindow>,
    overlap: int,
    limits: WidenLimits,
    build: B,
    is_widenable: W,
    on_widen: O,
) where B: FnMut(&SubmapWindow) -> Result<T, E>, W: Fn(&E) -> bool, O: FnMut(usize, &Range<usize>, &Range<usize>, WidenMergeReason)
    requires
        windows.len() > 0,
        limits.max_merges >= 0,
        is_widen_history::<T, E, B, W, O>(history, windows, limits, build, is_widenable, on_widen),
        0 <= k < history.len(),
    ensures
        widen_invariant::<T, E, B>(history[k], windows, overlap, limits, build),
    decreases k,
{
    reveal(is_widen_history);
    if k > 0 {
        lemma_widen_invariant::<T, E, B, W, O>(
            history,
            k - 1,
            windows,
            overlap,
            limits,
            build,
            is_widenable,
            on_widen,
        );
        let state = history[k - 1];
        let next = history[k];
        assert(widen_advances::<T, E, B, W, O>(state, next, limits, build, is_widenable, on_widen));
        let outcome = choose|outcome: Result<T, E>| #[trigger]
            call_ensures(build, (&state.window(),), outcome) && match outcome {
                Ok(value) => next == state.after_success(limits, value),
                Err(error) => call_ensures(is_widenable, (&error,), true) && state.after_failure(
                    limits,
                    error,
                    true,
                ) == WidenStep::<T, E>::Next(next),
            };
        if state.index + 1 < state.windows.len() {
            lemma_merge_at(state.windows, state.index, overlap);
        }
        if state.index > 0 {
            lemma_merge_at(state.windows, state.index - 1, overlap);
        }
    }
}

/// Widening keeps the cover. Whatever the builds return, a run that succeeds hands
/// out windows that begin where the first window began and end where the last one
/// ended; where consecutive windows shared exactly `overlap` images, they still do;
/// and each value is what building exactly its window returned.
pub proof fn widening_keeps_the_cover<T, E, B, W, O>(
    history: Seq<WidenState<T>>,
    windows: Seq<SubmapWindow>,
    overlap: int,
    limits: WidenLimits,
    build: B,
    is_widenable: W,
    on_widen: O,
    outputs: Vec<(SubmapWindow, T)>,
) where B: FnMut(&SubmapWindow) -> Result<T, E>, W: Fn(&E) -> bool, O: FnMut(usize, &Range<usize>, &Range<usize>, WidenMergeReason)
    requires
        windows.len() > 0,
        limits.max_merges >= 0,
        is_widen_run::<T, E, B, W, O>(history, windows, limits, build, is_widenable, on_widen, Ok(outputs)),
    ensures
        0 < outputs.len() <= windows.len(),
        outputs[0].0.image_range.start == windows[0].image_range.start,
        outputs@.last().0.image_range.end == windows.last().image_range.end,
        chained(windows, overlap) ==> chained(
            outputs@.map_values(|output: (SubmapWindow, T)| output.0),
            overlap,
        ),
        forall|k: int|
            0 <= k < outputs.len() ==> call_ensures(
                build,
                (&(#[trigger] outputs[k]).0,),
                Ok::<T, E>(outputs[k].1),
            ),
{
    assert(history.len() > 0) by {
        reveal(is_widen_history);
    }
    let last = history.len() - 1;
    lemma_widen_invariant::<T, E, B, W, O>(
        history,
        last,
        windows,
        overlap,
        limits,
        build,
        is_widenable,
        on_widen,
    );
    let state = history[last];
    assert(outputs@.map_values(|output: (SubmapWindow, T)| output.0) =~= state.windows);
    assert forall|k: int| 0 <= k < outputs.len() implies call_ensures(
        build,
        (&(#[trigger] outputs[k]).0,),
        Ok::<T, E>(outputs[k].1),
    ) by {
        assert(state.windows[k] == outputs[k].0);
    }
}

/// The merge budget holds for every span: no state of a run has more merges than
/// `max_merges`, and one that was just merged for overlap safety had fewer.
pub proof fn widening_respects_the_budget<T, E, B, W, O>(
    history: Seq<WidenState<T>>,
    k: int,
    windows: Seq<SubmapWindow>,
    limits: WidenLimits,
    build: B,
    is_widenable: W,
    on_widen: O,
) where B: FnMut(&SubmapWindow) -> Result<T, E>, W: Fn(&E) -> bool, O: FnMut(usize, &Range<usize>, &Range<usize>, WidenMergeReason)
    requires
        windows.len() > 0,
        limits.max_merges >= 0,
        is_widen_history::<T, E, B, W, O>(history, windows, limits, build, is_widenable, on_widen),
        0 <= k < history.len(),
    ensures
        0 <= history[k].merges <= limits.max_merges,
        limits.min_overlap == 0 ==> !history[k].needs_safety_merge(limits),
{
    lemma_widen_invariant::<T, E, B, W, O>(
        history,
        k,
        windows,
        0,
        limits,
        build,
        is_widenable,
        on_widen,
    );
}

/// The windows whose builds were asked for, in order: that of every state which another
/// follows, and where the run ended with an error also that of the last state.
pub open spec fn attempts<T, E>(
    history: Seq<WidenState<T>>,
    result: Result<Vec<(SubmapWindow, T)>, E>,
) -> Seq<SubmapWindow> {
    let answered = history.drop_last().map_values(|state: WidenState<T>| state.window());
    if result is Ok {
        answered
    } else {
        answered.push(history.last().window())
    }
}

/// No failure of the run can lead to a merge: the budget is zero, no error is widenable, or
/// none of the windows fails.
pub open spec fn never_widens<T, E, B, W>(
    windows: Seq<SubmapWindow>,
    limits: WidenLimits,
    build: B,
    is_widenable: W,
) -> bool where B: FnMut(&SubmapWindow) -> Result<T, E>, W: Fn(&E) -> bool {
    ||| limits.max_merges == 0
    ||| forall|error: E| !#[trigger] call_ensures(is_widenable, (&error,), true)
    ||| forall|j: int, error: E|
        0 <= j < windows.len() ==> !#[trigger] call_ensures(
            build,
            (&windows[j],),
            Err::<T, E>(error),
        )
}

proof fn lemma_never_widened<T, E, B, W, O>(
    history: Seq<WidenState<T>>,
    k: int,
    windows: Seq<SubmapWindow>,
    limits: WidenLimits,
    build: B,
    is_widenable: W,
    on_widen: O,
) where
    B: FnMut(&SubmapWindow) -> Result<T, E>,
    W: Fn(&E) -> bool,
    O: FnMut(usize, &Range<usize>, &Range<usize>, WidenMergeReason),

    requires
        is_widen_history::<T, E, B, W, O>(
            history,
            windows,
            limits,
            build,
            is_widenable,
            on_widen,
        ),
        never_widens::<T, E, B, W>(windows, limits, build, is_widenable),
        0 <= k < history.len(),
    ensures
        history[k].windows == windows,
        history[k].merges == 0,
        history[k].index == k <= windows.len(),
        history[k].built.len() == k,
        history[k].reports == Seq::<MergeReport>::empty(),
        forall|j: int|
            0 <= j < k ==> call_ensures(
                build,
                (&#[trigger] windows[j],),
                Ok::<T, E>(history[k].built[j]),
            ),
    decreases k,
{
    reveal(is_widen_history);
    if k > 0 {
        lemma_never_widened::<T, E, B, W, O>(
            history,
            k - 1,
            windows,
            limits,
            build,
            is_widenable,
            on_widen,
        );
        assert(widen_advances::<T, E, B, W, O>(
            history[k - 1],
            history[k],
            limits,
            build,
            is_widenable,
            on_widen,
        ));
    }
}

/// With a zero budget, with errors that are never widenable, or with windows that do not
/// fail, nothing is merged and nothing reported. The windows are built in order, once each,
/// up to the first that fails: every window comes out with the value that its build
/// returned, or the run ends with the error of that first one.
pub proof fn widening_that_never_merges_passes_through<T, E, B, W, O>(
    history: Seq<WidenState<T>>,
    windows: Seq<SubmapWindow>,
    limits: WidenLimits,
    build: B,
    is_widenable: W,
    on_widen: O,
    result: Result<Vec<(SubmapWindow, T)>, E>,
) where
    B: FnMut(&SubmapWindow) -> Result<T, E>,
    W: Fn(&E) -> bool,
    O: FnMut(usize, &Range<usize>, &Range<usize>, WidenMergeReason),

    requires
        is_widen_run::<T, E, B, W, O>(
            history,
            windows,
            limits,
            build,
            is_widenable,
            on_widen,
            result,
        ),
        never_widens::<T, E, B, W>(windows, limits, build, is_widenable),
    ensures
        history.last().reports == Seq::<MergeReport>::empty(),
        match result {
            Ok(outputs) => {
                &&& attempts(history, result) == windows
                &&& outputs.len() == windows.len()
                &&& forall|j: int|
                    0 <= j < windows.len() ==> (#[trigger] outputs[j]).0 == windows[j]
                        && call_ensures(build, (&windows[j],), Ok::<T, E>(outputs[j].1))
            },
            Err(error) => {
                let failed = history.len() - 1;
                &&& failed < windows.len()
                &&& attempts(history, result) == windows.take(failed + 1)
                &&& call_ensures(build, (&windows[failed],), Err::<T, E>(error))
                &&& forall|j: int|
                    0 <= j < failed ==> call_ensures(
                        build,
                        (&#[trigger] windows[j],),
                        Ok::<T, E>(history.last().built[j]),
                    )
            },
        },
        (forall|j: int, error: E|
            0 <= j < windows.len() ==> !#[trigger] call_ensures(
                build,
                (&windows[j],),
                Err::<T, E>(error),
            )) ==> result is Ok,
{
    assert(history.len() > 0) by {
        reveal(is_widen_history);
    }
    let last = history.len() - 1;
    lemma_never_widened::<T, E, B, W, O>(
        history,
        last,
        windows,
        limits,
        build,
        is_widenable,
        on_widen,
    );
    let answered = history.drop_last().map_values(|state: WidenState<T>| state.window());
    assert forall|k: int| 0 <= k < last implies #[trigger] answered[k] == windows[k] by {
        lemma_never_widened::<T, E, B, W, O>(
            history,
            k,
            windows,
            limits,
            build,
            is_widenable,
            on_widen,
        );
    }
    match result {
        Ok(outputs) => {
            assert(attempts(history, result) =~= windows);
            assert forall|j: int| 0 <= j < windows.len() implies (#[trigger] outputs[j]).0
                == windows[j] && call_ensures(build, (&windows[j],), Ok::<T, E>(outputs[j].1)) by {
                assert(history.last().windows[j] == windows[j]);
            }
        },
        Err(error) => {
            assert(attempts(history, result) =~= windows.take(last + 1));
        },
    }
}

/// Both the starts and the ends of the windows increase strictly.
pub open spec fn are_increasing(windows: Seq<SubmapWindow>) -> bool {
    forall|i: int, j: int|
        0 <= i < j < windows.len() ==> (#[trigger] windows[i]).image_range.start < (
        #[trigger] windows[j]).image_range.start && windows[i].image_range.end
            < windows[j].image_range.end
}

/// One range strictly contains the other.
pub open spec fn strictly_contains(outer: Range<usize>, inner: Range<usize>) -> bool {
    outer.start <= inner.start && inner.end <= outer.end && (outer.start < inner.start
        || inner.end < outer.end)
}

/// The reports form runs: each begins with number one, counts up to the budget at most,
/// and continues from the range that its last report left.
pub open spec fn are_runs(reports: Seq<MergeReport>, limits: WidenLimits) -> bool {
    &&& reports.len() > 0 ==> reports[0].number == 1
    &&& forall|j: int|
        0 <= j < reports.len() ==> 1 <= (#[trigger] reports[j]).number <= limits.max_merges
    &&& forall|i: int, j: int|
        0 <= i && j == i + 1 < reports.len() && (#[trigger] reports[j]).number > 1
            ==> reports[j].number == (#[trigger] reports[i]).number + 1 && reports[j].before
            == reports[i].after
}

proof fn lemma_merged_increase(windows: Seq<SubmapWindow>, k: int)
    requires
        are_increasing(windows),
        0 <= k < windows.len() - 1,
    ensures
        are_increasing(merge_at(windows, k)),
{
    let after = merge_at(windows, k);
    assert forall|i: int, j: int| 0 <= i < j < after.len() implies (
    #[trigger] after[i]).image_range.start < (#[trigger] after[j]).image_range.start
        && after[i].image_range.end < after[j].image_range.end by {
        let left = if i <= k {
            i
        } else {
            i + 1
        };
        let right = if j <= k {
            j
        } else {
            j + 1
        };
        assert(windows[left].image_range.start < windows[right].image_range.start);
        assert(windows[left].image_range.end < windows[right].image_range.end);
        if i == k {
            assert(windows[k + 1].image_range.end < windows[right].image_range.end);
        }
        if j == k {
            assert(windows[left].image_range.end < windows[k + 1].image_range.end);
        }
    }
}

/// What the reports satisfy at every state of a run.
spec fn reports_hold<T, O>(
    state: WidenState<T>,
    limits: WidenLimits,
    on_widen: O,
    increasing: bool,
) -> bool where O: FnMut(usize, &Range<usize>, &Range<usize>, WidenMergeReason) {
    &&& are_runs(state.reports, limits)
    &&& state.merges > 0 ==> state.reports.len() > 0 && state.reports.last().number
        == state.merges && state.reports.last().after == state.window().image_range
    &&& forall|j: int|
        0 <= j < state.reports.len() ==> was_reported(on_widen, #[trigger] state.reports[j])
    &&& increasing ==> are_increasing(state.windows) && forall|j: int|
        0 <= j < state.reports.len() ==> strictly_contains(
            (#[trigger] state.reports[j]).after,
            state.reports[j].before,
        )
}

proof fn lemma_report_pushed<T, O>(
    before: WidenState<T>,
    after: WidenState<T>,
    limits: WidenLimits,
    on_widen: O,
    increasing: bool,
) where O: FnMut(usize, &Range<usize>, &Range<usize>, WidenMergeReason)
    requires
        reports_hold(before, limits, on_widen, increasing),
        0 <= before.merges < limits.max_merges,
        after.merges == before.merges + 1,
        after.reports.len() == before.reports.len() + 1,
        after.reports == before.reports.push(after.reports.last()),
        after.reports.last().number == after.merges,
        after.reports.last().before == before.window().image_range,
        after.reports.last().after == after.window().image_range,
        was_reported(on_widen, after.reports.last()),
        increasing ==> are_increasing(after.windows) && strictly_contains(
            after.window().image_range,
            before.window().image_range,
        ),
    ensures
        reports_hold(after, limits, on_widen, increasing),
{
    let n = before.reports.len();
    assert forall|j: int| 0 <= j < n implies #[trigger] after.reports[j] == before.reports[j] by {}
    assert(after.reports[n as int] == after.reports.last());
    assert(after.reports[0].number == 1) by {
        if n == 0 {
            assert(before.merges == 0);
        }
    }
    assert forall|i: int, j: int|
        0 <= i && j == i + 1 < after.reports.len() && (
        #[trigger] after.reports[j]).number > 1 implies after.reports[j].number == (
    #[trigger] after.reports[i]).number + 1 && after.reports[j].before
        == after.reports[i].after by {
        if j == n {
            assert(before.reports[i] == before.reports.last());
        }
    }
}

proof fn lemma_reports_step<T, E, B, W, O>(
    before: WidenState<T>,
    after: WidenState<T>,
    limits: WidenLimits,
    build: B,
    is_widenable: W,
    on_widen: O,
    increasing: bool,
) where
    B: FnMut(&SubmapWindow) -> Result<T, E>,
    W: Fn(&E) -> bool,
    O: FnMut(usize, &Range<usize>, &Range<usize>, WidenMergeReason),

    requires
        before.consistent(),
        reports_hold(before, limits, on_widen, increasing),
        widen_advances::<T, E, B, W, O>(before, after, limits, build, is_widenable, on_widen),
    ensures
        reports_hold(after, limits, on_widen, increasing),
        after.merges == 0 <==> after == before.accept(after.built.last()),
        after.merges > 0 ==> after.reports == before.reports.push(after.reports.last())
            && after.merges == before.merges + 1,
{
    if after.merges == 0 {
        assert(after.reports == before.reports);
        assert(after.windows == before.windows);
    } else {
        if after.index == before.index {
            assert(after == before.absorb_successor());
            if increasing {
                lemma_merged_increase(before.windows, before.index);
                assert(before.windows[before.index].image_range.end < before.windows[before.index
                    + 1].image_range.end);
            }
        } else {
            assert(after.index == before.index - 1);
            assert(after.window().image_range == merged(
                before.windows,
                before.index - 1,
            ).image_range);
            if increasing {
                lemma_merged_increase(before.windows, before.index - 1);
                assert(before.windows[before.index - 1].image_range.start
                    < before.windows[before.index].image_range.start);
            }
        }
        lemma_report_pushed(before, after, limits, on_widen, increasing);
    }
}

proof fn lemma_reports_hold<T, E, B, W, O>(
    history: Seq<WidenState<T>>,
    k: int,
    windows: Seq<SubmapWindow>,
    limits: WidenLimits,
    build: B,
    is_widenable: W,
    on_widen: O,
) where
    B: FnMut(&SubmapWindow) -> Result<T, E>,
    W: Fn(&E) -> bool,
    O: FnMut(usize, &Range<usize>, &Range<usize>, WidenMergeReason),

    requires
        windows.len() > 0,
        limits.max_merges >= 0,
        is_widen_history::<T, E, B, W, O>(
            history,
            windows,
            limits,
            build,
            is_widenable,
            on_widen,
        ),
        0 <= k < history.len(),
    ensures
        reports_hold(history[k], limits, on_widen, are_increasing(windows)),
    decreases k,
{
    reveal(is_widen_history);
    if k > 0 {
        lemma_reports_hold::<T, E, B, W, O>(
            history,
            k - 1,
            windows,
            limits,
            build,
            is_widenable,
            on_widen,
        );
        lemma_widen_invariant::<T, E, B, W, O>(
            history,
            k - 1,
            windows,
            0,
            limits,
            build,
            is_widenable,
            on_widen,
        );
        lemma_reports_step::<T, E, B, W, O>(
            history[k - 1],
            history[k],
            limits,
            build,
            is_widenable,
            on_widen,
            are_increasing(windows),
        );
    }
}

/// The merges are reported in runs, one for each contiguous span that fails: a run counts
/// from one, to the budget at most, and starts anew exactly where the run of builds starts
/// or a window was accepted. Every report was made. Inside a run each report continues from
/// the range that the one before it left, and where the starts and ends of the windows
/// increase, the range after a merge strictly contains the range before it.
pub proof fn merges_are_reported_in_runs<T, E, B, W, O>(
    history: Seq<WidenState<T>>,
    k: int,
    windows: Seq<SubmapWindow>,
    limits: WidenLimits,
    build: B,
    is_widenable: W,
    on_widen: O,
) where
    B: FnMut(&SubmapWindow) -> Result<T, E>,
    W: Fn(&E) -> bool,
    O: FnMut(usize, &Range<usize>, &Range<usize>, WidenMergeReason),

    requires
        windows.len() > 0,
        limits.max_merges >= 0,
        is_widen_history::<T, E, B, W, O>(
            history,
            windows,
            limits,
            build,
            is_widenable,
            on_widen,
        ),
        0 <= k < history.len(),
    ensures
        are_runs(history[k].reports, limits),
        history[k].merges == 0 <==> k == 0 || history[k] == history[k - 1].accept(
            history[k].built.last(),
        ),
        history[k].merges > 0 ==> history[k].reports.len() > 0
            && history[k].reports.last().number == history[k].merges
            && history[k].reports.last().after == history[k].window().image_range,
        k > 0 && history[k].merges > 0 ==> history[k].reports == history[k - 1].reports.push(
            history[k].reports.last(),
        ) && history[k].merges == history[k - 1].merges + 1,
        forall|j: int|
            0 <= j < history[k].reports.len() ==> was_reported(
                on_widen,
                #[trigger] history[k].reports[j],
            ),
        are_increasing(windows) ==> are_increasing(history[k].windows) && forall|j: int|
            0 <= j < history[k].reports.len() ==> strictly_contains(
                (#[trigger] history[k].reports[j]).after,
                history[k].reports[j].before,
            ),
{
    lemma_reports_hold::<T, E, B, W, O>(
        history,
        k,
        windows,
        limits,
        build,
        is_widenable,
        on_widen,
    );
    if k == 0 {
        reveal(is_widen_history);
    } else {
        lemma_reports_hold::<T, E, B, W, O>(
            history,
            k - 1,
            windows,
            limits,
            build,
            is_widenable,
            on_widen,
        );
        lemma_widen_invariant::<T, E, B, W, O>(
            history,
            k - 1,
            windows,
            0,
            limits,
            build,
            is_widenable,
            on_widen,
        );
        assert(widen_advances::<T, E, B, W, O>(
            history[k - 1],
            history[k],
            limits,
            build,
            is_widenable,
            on_widen,
        )) by {
            reveal(is_widen_history);
        }
        lemma_reports_step::<T, E, B, W, O>(
            history[k - 1],
            history[k],
            limits,
            build,
            is_widenable,
            on_widen,
            are_increasing(windows),
        );
    }
}

/// Widening is deterministic: where a build and the verdict on an error depend on
/// their arguments alone, any two runs over the same windows pass through the same
/// states.
pub proof fn widening_is_deterministic<T, E, B, W, O>(
    left: Seq<WidenState<T>>,
    right: Seq<WidenState<T>>,
    k: int,
    windows: Seq<SubmapWindow>,
    limits: WidenLimits,
    build: B,
    is_widenable: W,
    on_widen: O,
) where B: FnMut(&SubmapWindow) -> Result<T, E>, W: Fn(&E) -> bool, O: FnMut(usize, &Range<usize>, &Range<usize>, WidenMergeReason)
    requires
        is_widen_history::<T, E, B, W, O>(left, windows, limits, build, is_widenable, on_widen),
        is_widen_history::<T, E, B, W, O>(right, windows, limits, build, is_widenable, on_widen),
        forall|window: SubmapWindow, a: Result<T, E>, b: Result<T, E>|
            #![trigger call_ensures(build, (&window,), a), call_ensures(build, (&window,), b)]
            call_ensures(build, (&window,), a) && call_ensures(build, (&window,), b) ==> a == b,
        0 <= k < left.len(),
        k < right.len(),
    ensures
        left[k] == right[k],
    decreases k,
{
    reveal(is_widen_history);
    if k > 0 {
        widening_is_deterministic::<T, E, B, W, O>(
            left,
            right,
            k - 1,
            windows,
            limits,
            build,
            is_widenable,
            on_widen,
        );
        assert(widen_advances::<T, E, B, W, O>(
            left[k - 1],
            left[k],
            limits,
            build,
            is_widenable,
            on_widen,
        ));
        assert(widen_advances::<T, E, B, W, O>(
            right[k - 1],
            right[k],
            limits,
            build,
            is_widenable,
            on_widen,
        ));
    }
}

/// Merging joins two neighbours: the window spans from the start of the first to the end of
/// the second and leads on as the second did; every other window stays, in order.
pub proof fn merging_joins_two_neighbours(windows: Seq<SubmapWindow>, k: int, j: int)
    requires
        0 <= k < windows.len() - 1,
        0 <= j < windows.len() - 1,
    ensures
        merge_at(windows, k).len() == windows.len() - 1,
        j < k ==> merge_at(windows, k)[j] == windows[j],
        j > k ==> merge_at(windows, k)[j] == windows[j + 1],
        merge_at(windows, k)[k].image_range.start == windows[k].image_range.start,
        merge_at(windows, k)[k].image_range.end == windows[k + 1].image_range.end,
        merge_at(windows, k)[k].outgoing_seam_support == windows[k + 1].outgoing_seam_support,
{
}

/// What one build does to a run. A window that fails, widenably and within the budget, is
/// merged with the next one, or at the end with the one before, whose value is then
/// discarded. A window that builds is accepted, unless it was widened within the budget, is
/// not the first, and reaches back over less than the required overlap: then it is merged
/// with the one before. A merge counts and is reported; an acceptance starts a new count.
pub proof fn builds_decide_what_happens<T, E, B, W, O>(
    state: WidenState<T>,
    next: WidenState<T>,
    limits: WidenLimits,
    build: B,
    is_widenable: W,
    on_widen: O,
) -> (outcome: Result<T, E>) where
    B: FnMut(&SubmapWindow) -> Result<T, E>,
    W: Fn(&E) -> bool,
    O: FnMut(usize, &Range<usize>, &Range<usize>, WidenMergeReason),

    requires
        state.consistent(),
        widen_advances::<T, E, B, W, O>(state, next, limits, build, is_widenable, on_widen),
    ensures
        ({
            let window = state.windows[state.index];
            let reach = state.original_start - window.image_range.start;
            let short_reach = reach < limits.min_overlap && (reach >= 0 || limits.min_overlap > 0);
            let at_the_end = state.index == state.windows.len() - 1;
            &&& 0 <= state.index < state.windows.len()
            &&& call_ensures(build, (&window,), outcome)
            &&& outcome matches Ok(value) ==> {
                let pulled_back = 0 < state.merges < limits.max_merges && state.index > 0
                    && short_reach;
                &&& !pulled_back ==> {
                    &&& next.windows == state.windows
                    &&& next.built == state.built.push(value)
                    &&& next.index == state.index + 1
                    &&& next.merges == 0
                    &&& next.reports == state.reports
                    &&& next.index < next.windows.len() ==> next.original_start
                        == next.windows[next.index].image_range.start
                }
                &&& pulled_back ==> {
                    &&& next.windows == merge_at(state.windows, state.index - 1)
                    &&& next.index == state.index - 1
                    &&& next.reports.last().reason == WidenMergeReason::PostWidenOverlapSafety
                }
            }
            &&& outcome matches Err(error) ==> {
                &&& call_ensures(is_widenable, (&error,), true)
                &&& state.merges < limits.max_merges
                &&& state.windows.len() > 1
                &&& !at_the_end ==> next.windows == merge_at(state.windows, state.index)
                    && next.index == state.index && next.built == state.built
                &&& at_the_end ==> next.windows == merge_at(state.windows, state.index - 1)
                    && next.index == state.index - 1
                &&& next.reports.last().reason == WidenMergeReason::UnbuildableWindow
            }
            &&& next.windows.len() < state.windows.len() ==> {
                &&& next.index < state.index ==> next.built == state.built.take(next.index)
                &&& next.merges == state.merges + 1
                &&& next.original_start == state.original_start
                &&& next.reports.len() == state.reports.len() + 1
                &&& next.reports.last().number == next.merges
                &&& next.reports.last().before == window.image_range
                &&& next.reports.last().after == next.windows[next.index].image_range
                &&& was_reported(on_widen, next.reports.last())
            }
        }),
{
    let outcome = choose|outcome: Result<T, E>| #[trigger]
        call_ensures(build, (&state.window(),), outcome) && match outcome {
            Ok(value) => next == state.after_success(limits, value),
            Err(error) => call_ensures(is_widenable, (&error,), true) && state.after_failure(
                limits,
                error,
                true,
            ) == WidenStep::<T, E>::Next(next),
        };
    assert(state.index > 0 ==> state.built.drop_last() =~= state.built.take(state.index - 1));
    outcome
}

/// A run ends with an error only where the window at hand fails with it, and the budget is
/// spent, the error is not widenable, or no other window is left to merge with.
pub proof fn runs_stop_for_a_reason<T, E, B, W>(
    last: WidenState<T>,
    error: E,
    limits: WidenLimits,
    build: B,
    is_widenable: W,
) where B: FnMut(&SubmapWindow) -> Result<T, E>, W: Fn(&E) -> bool
    requires
        is_widen_result::<T, E, B, W>(last, Err(error), limits, build, is_widenable),
        last.consistent(),
    ensures
        0 <= last.index < last.windows.len(),
        call_ensures(build, (&last.windows[last.index],), Err::<T, E>(error)),
        last.merges < limits.max_merges && last.windows.len() > 1 ==> call_ensures(
            is_widenable,
            (&error,),
            false,
        ),
{
}

} // verus!
