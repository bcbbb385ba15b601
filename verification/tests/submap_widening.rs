use std::cell::RefCell;
use std::ops::Range;
use visloc_slam::submap_partition::SubmapWindow;
use visloc_slam::submap_widening::{widen_and_build, WidenMergeReason};

#[derive(Debug, Clone, Copy, PartialEq, Eq)]
struct FakeSeedError;

fn w(range: Range<usize>) -> SubmapWindow {
    SubmapWindow {
        image_range: range,
        outgoing_seam_support: 0,
    }
}

/// A window fails iff its range is entirely inside `bad` — the
/// stand-in for "no seed pair anywhere in this window" — so widening
/// only stops failing once a merged window extends past `bad.end`.
fn build_failing_within<'a>(
    bad: Range<usize>,
    calls: &'a RefCell<Vec<Range<usize>>>,
) -> impl FnMut(&SubmapWindow) -> Result<usize, FakeSeedError> + 'a {
    move |window: &SubmapWindow| {
        calls.borrow_mut().push(window.image_range.clone());
        let r = &window.image_range;
        if r.start >= bad.start && r.end <= bad.end {
            Err(FakeSeedError)
        } else {
            Ok(r.len())
        }
    }
}

fn base_windows() -> Vec<SubmapWindow> {
    vec![w(0..10), w(10..20), w(20..30), w(30..40), w(40..50)]
}

#[test]
fn merges_consecutive_unseedable_windows_into_one() {
    let calls = RefCell::new(Vec::new());
    let merges = RefCell::new(Vec::new());
    let outputs = widen_and_build(
        base_windows(),
        8,
        0, // post-widen safety absorption disabled: not under test here
        build_failing_within(10..40, &calls),
        |_error| true,
        |n, before, after, reason| {
            assert_eq!(reason, WidenMergeReason::UnbuildableWindow);
            merges.borrow_mut().push((n, before.clone(), after.clone()))
        },
    )
    .expect("wide enough merge budget reaches past the bad span");

    let ranges = outputs
        .iter()
        .map(|(window, _)| window.image_range.clone())
        .collect::<Vec<_>>();
    assert_eq!(ranges, vec![0..10, 10..50]);
    assert_eq!(
        outputs.iter().map(|(_, len)| *len).collect::<Vec<_>>(),
        vec![10, 40]
    );
    // Three neighbour absorptions: 10..20+20..30, then +30..40, then +40..50.
    assert_eq!(merges.borrow().len(), 3);
    assert_eq!(merges.borrow()[2].2, 10..50);
    // One build call for window 0, four for the failing/widening span
    // (10..20, 10..30, 10..40, 10..50).
    assert_eq!(calls.borrow().len(), 5);
}

#[test]
fn cap_is_respected_and_original_error_returned_when_exhausted() {
    let calls = RefCell::new(Vec::new());
    let merges = RefCell::new(Vec::new());
    let error = widen_and_build(
        base_windows(),
        2, // one merge short of the three the bad span needs
        0, // post-widen safety absorption disabled: not under test here
        build_failing_within(10..40, &calls),
        |_error| true,
        |n, before, after, _reason| {
            merges.borrow_mut().push((n, before.clone(), after.clone()))
        },
    )
    .unwrap_err();

    assert_eq!(error, FakeSeedError);
    assert_eq!(merges.borrow().len(), 2, "cap stops the third merge");
    // window 0 (1 call) + 10..20, 10..30, 10..40 (3 calls) before giving up.
    assert_eq!(calls.borrow().len(), 4);
}

#[test]
fn tail_window_merges_backward_and_discards_the_predecessors_build() {
    let calls = RefCell::new(Vec::new());
    let build = |window: &SubmapWindow| {
        calls.borrow_mut().push(window.image_range.clone());
        if window.image_range == (20..30) {
            Err(FakeSeedError)
        } else {
            Ok(window.image_range.len())
        }
    };
    let outputs = widen_and_build(
        vec![w(0..10), w(10..20), w(20..30)],
        8,
        0, // post-widen safety absorption disabled: not under test here
        build,
        |_error| true,
        |_, _, _, _| {},
    )
    .expect("merging with the predecessor escapes the failing tail window");

    let ranges = outputs
        .iter()
        .map(|(window, _)| window.image_range.clone())
        .collect::<Vec<_>>();
    assert_eq!(ranges, vec![0..10, 10..30]);
    // window 0, window 1 (later discarded), failing 20..30, retried 10..30.
    assert_eq!(calls.borrow().len(), 4);
}

#[test]
fn single_remaining_window_with_no_neighbour_fails_immediately() {
    let error = widen_and_build(
        vec![w(0..5)],
        8,
        0,
        |_window: &SubmapWindow| Err::<usize, _>(FakeSeedError),
        |_error| true,
        |_, _, _, _| {},
    )
    .unwrap_err();
    assert_eq!(error, FakeSeedError);
}

#[test]
fn non_widenable_error_propagates_without_merging() {
    let calls = RefCell::new(Vec::new());
    let error = widen_and_build(
        base_windows(),
        8,
        0,
        build_failing_within(10..40, &calls),
        |_error| false, // this failure is never worth widening for
        |_, _, _, _| panic!("must not widen a non-widenable error"),
    )
    .unwrap_err();
    assert_eq!(error, FakeSeedError);
    // Window 0 succeeds, then window 1 (10..20) fails once and gives up.
    assert_eq!(calls.borrow().len(), 2);
}

#[test]
fn windows_that_all_succeed_are_a_pass_through() {
    let outputs = widen_and_build(
        vec![w(0..5), w(5..10)],
        8,
        0,
        |window: &SubmapWindow| Ok::<_, FakeSeedError>(window.image_range.len()),
        |_error| true,
        |_, _, _, _| panic!("no failure means no widening"),
    )
    .unwrap();
    assert_eq!(
        outputs
            .iter()
            .map(|(window, len)| (window.image_range.clone(), *len))
            .collect::<Vec<_>>(),
        vec![(0..5, 5), (5..10, 5)]
    );
}

#[test]
fn merge_sequence_is_deterministic_across_runs() {
    let run = || {
        let calls = RefCell::new(Vec::new());
        let outputs = widen_and_build(
            base_windows(),
            8,
            0,
            build_failing_within(10..40, &calls),
            |_error| true,
            |_, _, _, _| {},
        )
        .unwrap();
        (
            outputs
                .into_iter()
                .map(|(window, len)| (window.image_range, len))
                .collect::<Vec<_>>(),
            calls.into_inner(),
        )
    };
    assert_eq!(run(), run());
}

/// A mid-sequence window (`bad`, `20..30`) needs one forward
/// merge to build (`20..40`), which succeeds — but its start (`20`)
/// is still the original failing window's own start, so all of its
/// overlap with the untouched predecessor `10..20` is inside `bad`.
/// With a nonzero `min_post_widen_overlap_images`, the predecessor
/// must be absorbed too.
fn thin_quality_windows() -> Vec<SubmapWindow> {
    vec![w(0..10), w(10..20), w(20..30), w(30..40), w(40..50)]
}

#[test]
fn absorbs_predecessor_when_widened_window_still_borders_the_original_span() {
    let calls = RefCell::new(Vec::new());
    let merges = RefCell::new(Vec::new());
    // Fails only for 20..30 (needs exactly one forward merge to reach
    // 20..40, which is outside `bad`).
    let bad = 20..30;
    let build = |window: &SubmapWindow| {
        calls.borrow_mut().push(window.image_range.clone());
        let r = &window.image_range;
        if r.start >= bad.start && r.end <= bad.end {
            Err(FakeSeedError)
        } else {
            Ok(r.len())
        }
    };
    let outputs = widen_and_build(
        thin_quality_windows(),
        8,
        5, // require >= 5 clean images outside `bad` in the shared overlap
        build,
        |_error| true,
        |n, before, after, reason| {
            merges
                .borrow_mut()
                .push((n, before.clone(), after.clone(), reason))
        },
    )
    .expect("forward widen succeeds, then the safety absorption also succeeds");

    let ranges = outputs
        .iter()
        .map(|(window, _)| window.image_range.clone())
        .collect::<Vec<_>>();
    // 10..20 (the predecessor) is gone, absorbed into the widened
    // window: final windows are 0..10, 10..40 (was 20..30, forward
    // merged to 20..40, then safety-absorbed 10..20), 40..50.
    assert_eq!(ranges, vec![0..10, 10..40, 40..50]);
    assert_eq!(merges.borrow().len(), 2);
    assert_eq!(
        merges.borrow()[0],
        (1, 20..30, 20..40, WidenMergeReason::UnbuildableWindow)
    );
    assert_eq!(
        merges.borrow()[1],
        (2, 20..40, 10..40, WidenMergeReason::PostWidenOverlapSafety)
    );
}

#[test]
fn safety_absorption_cap_is_respected_and_the_partially_widened_window_is_kept() {
    let calls = RefCell::new(Vec::new());
    let merges = RefCell::new(Vec::new());
    let bad = 20..30;
    let build = |window: &SubmapWindow| {
        calls.borrow_mut().push(window.image_range.clone());
        let r = &window.image_range;
        if r.start >= bad.start && r.end <= bad.end {
            Err(FakeSeedError)
        } else {
            Ok(r.len())
        }
    };
    let outputs = widen_and_build(
        thin_quality_windows(),
        1, // exactly enough for the one forward merge, none left for safety
        5,
        build,
        |_error| true,
        |n, before, after, reason| {
            merges
                .borrow_mut()
                .push((n, before.clone(), after.clone(), reason))
        },
    )
    .expect("the forward merge alone still succeeds; safety absorption is just skipped");

    let ranges = outputs
        .iter()
        .map(|(window, _)| window.image_range.clone())
        .collect::<Vec<_>>();
    // Cap spent on the forward merge: no budget left for the safety
    // absorption, so 10..20 survives untouched even though its
    // overlap with 20..40 is entirely inside `bad`. A capped-out
    // safety absorption must never turn this success into a failure.
    assert_eq!(ranges, vec![0..10, 10..20, 20..40, 40..50]);
    assert_eq!(merges.borrow().len(), 1);
    assert_eq!(merges.borrow()[0].3, WidenMergeReason::UnbuildableWindow);
}

#[test]
fn no_safety_absorption_when_the_window_never_needed_widening() {
    let merges = RefCell::new(Vec::new());
    // Every window succeeds on the first try: `merges == 0` for all
    // of them, so the safety check must never fire even though
    // `min_post_widen_overlap_images` is large.
    let outputs = widen_and_build(
        thin_quality_windows(),
        8,
        1000,
        |window: &SubmapWindow| Ok::<_, FakeSeedError>(window.image_range.len()),
        |_error| true,
        |n, before, after, reason| {
            merges
                .borrow_mut()
                .push((n, before.clone(), after.clone(), reason))
        },
    )
    .unwrap();
    assert_eq!(
        outputs
            .iter()
            .map(|(window, _)| window.image_range.clone())
            .collect::<Vec<_>>(),
        vec![0..10, 10..20, 20..30, 30..40, 40..50]
    );
    assert!(merges.borrow().is_empty());
}

#[test]
fn zero_threshold_disables_the_safety_absorption() {
    let calls = RefCell::new(Vec::new());
    let merges = RefCell::new(Vec::new());
    let bad = 20..30;
    let build = |window: &SubmapWindow| {
        calls.borrow_mut().push(window.image_range.clone());
        let r = &window.image_range;
        if r.start >= bad.start && r.end <= bad.end {
            Err(FakeSeedError)
        } else {
            Ok(r.len())
        }
    };
    let outputs = widen_and_build(
        thin_quality_windows(),
        8,
        0, // disabled
        build,
        |_error| true,
        |n, before, after, reason| {
            merges
                .borrow_mut()
                .push((n, before.clone(), after.clone(), reason))
        },
    )
    .expect("forward widen alone succeeds");
    let ranges = outputs
        .iter()
        .map(|(window, _)| window.image_range.clone())
        .collect::<Vec<_>>();
    assert_eq!(ranges, vec![0..10, 10..20, 20..40, 40..50]);
    assert_eq!(merges.borrow().len(), 1);
    assert_eq!(merges.borrow()[0].3, WidenMergeReason::UnbuildableWindow);
}

#[test]
fn safety_absorption_sequence_is_deterministic_across_runs() {
    let run = || {
        let calls = RefCell::new(Vec::new());
        let merges = RefCell::new(Vec::new());
        let bad = 20..30;
        let build = |window: &SubmapWindow| {
            calls.borrow_mut().push(window.image_range.clone());
            let r = &window.image_range;
            if r.start >= bad.start && r.end <= bad.end {
                Err(FakeSeedError)
            } else {
                Ok(r.len())
            }
        };
        let outputs = widen_and_build(
            thin_quality_windows(),
            8,
            5,
            build,
            |_error| true,
            |n, before, after, reason| {
                merges
                    .borrow_mut()
                    .push((n, before.clone(), after.clone(), reason))
            },
        )
        .unwrap();
        (
            outputs
                .into_iter()
                .map(|(window, len)| (window.image_range, len))
                .collect::<Vec<_>>(),
            calls.into_inner(),
            merges.into_inner(),
        )
    };
    assert_eq!(run(), run());
}

#[test]
fn a_zero_budget_or_a_hopeless_error_passes_through() {
    for (budget, widenable) in [(0, true), (8, false)] {
        let calls = RefCell::new(Vec::new());
        let merges = RefCell::new(0);
        let result = widen_and_build(
            base_windows(),
            budget,
            5,
            build_failing_within(20..40, &calls),
            |_error| widenable,
            |_, _, _, _| *merges.borrow_mut() += 1,
        );
        assert_eq!(result, Err(FakeSeedError));
        assert_eq!(*calls.borrow(), vec![0..10, 10..20, 20..30]);
        assert_eq!(*merges.borrow(), 0);
    }
}

#[test]
fn merges_are_numbered_from_one_in_every_span() {
    let calls = RefCell::new(Vec::new());
    let merges = RefCell::new(Vec::new());
    let build = |window: &SubmapWindow| {
        calls.borrow_mut().push(window.image_range.clone());
        let r = &window.image_range;
        // Too short windows fail.
        if r.len() < 20 {
            Err(FakeSeedError)
        } else {
            Ok(r.len())
        }
    };
    let outputs = widen_and_build(
        base_windows(),
        8,
        0,
        build,
        |_error| true,
        |n, before, after, reason| {
            merges.borrow_mut().push((n, before.clone(), after.clone(), reason))
        },
    )
    .unwrap();
    let ranges: Vec<Range<usize>> =
        outputs.iter().map(|(window, _)| window.image_range.clone()).collect();
    assert_eq!(ranges, vec![0..20, 20..50]);
    let reason = WidenMergeReason::UnbuildableWindow;
    assert_eq!(
        merges.into_inner(),
        vec![(1, 0..10, 0..20, reason), (1, 20..30, 20..40, reason), (1, 40..50, 20..50, reason)]
    );
}

#[test]
fn windows_that_build_are_passed_through_in_order() {
    let calls = RefCell::new(Vec::new());
    let merges = RefCell::new(0);
    let outputs = widen_and_build(
        base_windows(),
        8,
        5,
        build_failing_within(100..200, &calls),
        |_error| true,
        |_, _, _, _| *merges.borrow_mut() += 1,
    )
    .unwrap();
    let built: Vec<SubmapWindow> = outputs.iter().map(|(window, _)| window.clone()).collect();
    assert_eq!(built, base_windows());
    assert!(outputs.iter().all(|(_, len)| *len == 10));
    assert_eq!(*calls.borrow(), vec![0..10, 10..20, 20..30, 30..40, 40..50]);
    assert_eq!(*merges.borrow(), 0);
}

#[test]
fn a_run_of_merges_goes_on_from_the_range_it_left() {
    let calls = RefCell::new(Vec::new());
    let merges = RefCell::new(Vec::new());
    widen_and_build(
        base_windows(),
        8,
        5,
        build_failing_within(10..40, &calls),
        |_error| true,
        |n, before, after, _| merges.borrow_mut().push((n, before.clone(), after.clone())),
    )
    .unwrap();
    let merges = merges.into_inner();
    let numbers: Vec<usize> = merges.iter().map(|merge| merge.0).collect();
    assert_eq!(numbers, vec![1, 2, 3, 4]);
    for k in 0..merges.len() {
        let (_, before, after) = &merges[k];
        assert!(after.start <= before.start && before.end <= after.end && before != after);
        if k > 0 {
            assert_eq!(*before, merges[k - 1].2);
        }
    }
    assert_eq!(merges[3].2, 0..50);
}
