use quietmytempo::evaluator::{TapResult, TimingEvaluator, TimingEvent};
use quietmytempo::schedule::ExpectedTap;

fn ms(v: u64) -> u64 {
    v * 1_000_000
}

fn deviation_ms(result: &TapResult) -> f64 {
    result.deviation_ns as f64 / 1_000_000.0
}

#[test]
fn matches_closest_expected_tap() {
    let mut evaluator = TimingEvaluator::new(
        vec![
            ExpectedTap::scored(ms(0)),
            ExpectedTap::scored(ms(500)),
            ExpectedTap::scored(ms(1000)),
        ],
        ms(250),
    );

    let result = evaluator.record(TimingEvent { at: ms(510) }).unwrap();
    assert_eq!(result.expected.at, ms(500));
    assert!((deviation_ms(&result) - 10.0).abs() < 1e-6);
    assert!(deviation_ms(&result) > 0.0, "late tap should be positive");
}

#[test]
fn early_tap_is_negative_deviation() {
    let mut evaluator = TimingEvaluator::new(vec![ExpectedTap::scored(ms(500))], ms(250));
    let result = evaluator.record(TimingEvent { at: ms(480) }).unwrap();
    assert!((deviation_ms(&result) + 20.0).abs() < 1e-6);
    assert!(deviation_ms(&result) < 0.0, "early tap should be negative");
}

#[test]
fn each_expected_tap_is_consumed_only_once() {
    let mut evaluator = TimingEvaluator::new(
        vec![ExpectedTap::scored(ms(0)), ExpectedTap::scored(ms(500))],
        ms(250),
    );

    let first = evaluator.record(TimingEvent { at: ms(10) }).unwrap();
    assert_eq!(first.expected.at, ms(0));

    let second = evaluator.record(TimingEvent { at: ms(20) });
    assert!(second.is_none());
}

#[test]
fn returns_none_when_all_expected_taps_are_consumed() {
    let mut evaluator = TimingEvaluator::new(vec![ExpectedTap::scored(ms(0))], ms(250));
    assert!(evaluator.record(TimingEvent { at: ms(0) }).is_some());
    assert!(evaluator.record(TimingEvent { at: ms(0) }).is_none());
}

#[test]
fn double_tap_does_not_derail_subsequent_matches() {
    let mut evaluator = TimingEvaluator::new(
        vec![
            ExpectedTap::scored(ms(0)),
            ExpectedTap::scored(ms(500)),
            ExpectedTap::scored(ms(1000)),
        ],
        ms(250),
    );

    assert!(evaluator.record(TimingEvent { at: ms(5) }).is_some());
    assert!(evaluator.record(TimingEvent { at: ms(15) }).is_none());
    let result = evaluator.record(TimingEvent { at: ms(505) }).unwrap();
    assert_eq!(result.expected.at, ms(500));
}

#[test]
fn tap_far_outside_tolerance_is_rejected_even_if_it_is_the_closest() {
    let mut evaluator = TimingEvaluator::new(vec![ExpectedTap::scored(ms(1000))], ms(100));
    assert!(evaluator.record(TimingEvent { at: ms(0) }).is_none());
}

#[test]
fn informational_taps_are_excluded_from_summary() {
    let results = vec![
        TapResult {
            expected: ExpectedTap::informational(ms(0)),
            actual: TimingEvent { at: ms(50) },
            deviation_ns: 50_000_000,
        },
        TapResult {
            expected: ExpectedTap::scored(ms(1000)),
            actual: TimingEvent { at: ms(1010) },
            deviation_ns: 10_000_000,
        },
    ];

    let summary = TimingEvaluator::summarize(&results);
    assert_eq!(summary.scored_count, 1);
    let mean_ms = summary.total_deviation_ns as f64 / summary.scored_count as f64 / 1_000_000.0;
    assert!((mean_ms - 10.0).abs() < 1e-6);
}

#[test]
fn summary_of_empty_results_is_default() {
    let summary = TimingEvaluator::summarize(&[]);
    assert_eq!(summary.scored_count, 0);
    assert_eq!(summary.total_deviation_ns, 0);
    assert_eq!(summary, quietmytempo::evaluator::SessionSummary::default());
}

#[test]
fn expected_taps_given_out_of_order_are_matched_by_time() {
    let mut evaluator = TimingEvaluator::new(
        vec![ExpectedTap::scored(ms(1000)), ExpectedTap::scored(ms(0)), ExpectedTap::scored(ms(500))],
        ms(250),
    );
    let first = evaluator.record(TimingEvent { at: ms(490) }).unwrap();
    assert_eq!(first.expected.at, ms(500));
    assert_eq!(first.deviation_ns, -10_000_000);
    let second = evaluator.record(TimingEvent { at: ms(30) }).unwrap();
    assert_eq!(second.expected.at, ms(0));
    assert_eq!(second.actual.at, ms(30));
}

#[test]
fn tap_exactly_at_tolerance_is_matched() {
    let mut evaluator = TimingEvaluator::new(vec![ExpectedTap::scored(ms(1000))], ms(100));
    let result = evaluator.record(TimingEvent { at: ms(1100) }).unwrap();
    assert_eq!(result.deviation_ns, 100_000_000);
}

#[test]
fn tie_between_two_slots_goes_to_the_earlier_one() {
    let mut evaluator = TimingEvaluator::new(
        vec![ExpectedTap::scored(ms(0)), ExpectedTap::scored(ms(500))],
        ms(300),
    );
    let result = evaluator.record(TimingEvent { at: ms(250) }).unwrap();
    assert_eq!(result.expected.at, ms(0));
}

#[test]
fn summary_adds_up_scored_deviations_with_sign() {
    let results = vec![
        TapResult {
            expected: ExpectedTap::scored(ms(0)),
            actual: TimingEvent { at: ms(20) },
            deviation_ns: 20_000_000,
        },
        TapResult {
            expected: ExpectedTap::scored(ms(500)),
            actual: TimingEvent { at: ms(470) },
            deviation_ns: -30_000_000,
        },
    ];
    let summary = TimingEvaluator::summarize(&results);
    assert_eq!(summary.scored_count, 2);
    assert_eq!(summary.total_deviation_ns, -10_000_000);
    assert!(results[0].is_scored());
}

#[test]
fn a_burst_of_presses_consumes_each_expected_tap_once() {
    let mut evaluator = TimingEvaluator::new(
        vec![ExpectedTap::scored(ms(0)), ExpectedTap::scored(ms(500))],
        ms(600),
    );
    let matched = (0..10)
        .filter(|_| evaluator.record(TimingEvent { at: ms(10) }).is_some())
        .count();
    assert_eq!(matched, 2);
}

#[test]
fn caller_order_does_not_matter_with_distinct_times() {
    let taps = [ms(0), ms(500), ms(1000)];
    let events = [ms(480), ms(20), ms(1100), ms(520), ms(990)];
    let mut forward = TimingEvaluator::new(taps.iter().map(|&t| ExpectedTap::scored(t)).collect(), ms(250));
    let mut backward =
        TimingEvaluator::new(taps.iter().rev().map(|&t| ExpectedTap::scored(t)).collect(), ms(250));
    for at in events {
        assert_eq!(forward.record(TimingEvent { at }), backward.record(TimingEvent { at }));
    }
}

#[test]
fn among_taps_at_the_same_time_the_first_listed_is_consumed_first() {
    let mut informational_first = TimingEvaluator::new(
        vec![ExpectedTap::informational(ms(500)), ExpectedTap::scored(ms(500))],
        ms(100),
    );
    let first = informational_first.record(TimingEvent { at: ms(510) }).unwrap();
    assert!(first.expected.informational);
    let second = informational_first.record(TimingEvent { at: ms(510) }).unwrap();
    assert!(!second.expected.informational);

    let mut scored_first = TimingEvaluator::new(
        vec![ExpectedTap::scored(ms(500)), ExpectedTap::informational(ms(500))],
        ms(100),
    );
    assert!(!scored_first.record(TimingEvent { at: ms(490) }).unwrap().expected.informational);
}
