use drudge::iter::OutcomeIterator;
use drudge::iter::OutcomeIteratorExt;
use drudge::outcome::Outcome;
use drudge::outcome::OutcomeBatch;
use drudge::panic::Panic;
use drudge::panic::PanicPayload;

type TestOutcome = Outcome<usize, usize, String>;

fn success(index: usize, value: usize) -> TestOutcome {
    Outcome::Success { index, value }
}

#[test]
fn ordered_reassembly_sorts_by_index() {
    let scrambled: Vec<TestOutcome> = vec![
        success(2, 20),
        success(0, 0),
        success(1, 10),
        success(4, 40),
        success(3, 30),
    ];
    let ordered = scrambled.into_ordered();
    let indices: Vec<usize> = ordered.iter().map(|o| o.index()).collect();
    assert_eq!(indices, vec![0, 1, 2, 3, 4]);
}

#[test]
fn iterator_buffers_until_next_index() {
    let scrambled: Vec<TestOutcome> = vec![success(1, 10), success(0, 0)];
    let mut it = OutcomeIterator::new(scrambled);
    let first = it.next().unwrap();
    assert_eq!(first.index(), 0);
    let second = it.next().unwrap();
    assert_eq!(second.index(), 1);
    assert!(it.next().is_none());
}

#[test]
fn gap_truncates_the_sequence() {
    let with_gap: Vec<TestOutcome> = vec![success(0, 0), success(2, 20)];
    let ordered = with_gap.into_ordered();
    assert_eq!(ordered.len(), 1);
    assert_eq!(ordered[0].index(), 0);
}

#[test]
fn take_ordered_matches_into_ordered_prefix() {
    let scrambled = || -> Vec<TestOutcome> {
        vec![
            success(1, 10),
            success(0, 0),
            success(2, 20),
            success(4, 40),
            success(3, 30),
        ]
    };
    let taken = scrambled().take_ordered(3);
    let full: Vec<TestOutcome> = scrambled().into_ordered().into_iter().take(3).collect();
    assert_eq!(taken.len(), 3);
    for (a, b) in taken.iter().zip(full.iter()) {
        assert_eq!(a.index(), b.index());
    }
}

#[test]
fn take_ordered_buffers_late_low_indices() {
    let scrambled: Vec<TestOutcome> = vec![success(1, 10), success(0, 0)];
    let taken = scrambled.take_ordered(1);
    assert_eq!(taken.len(), 1);
    assert_eq!(taken[0].index(), 0);
}

#[test]
fn take_ordered_equals_into_ordered_take_on_any_order() {
    let scrambled = || -> Vec<TestOutcome> {
        vec![success(4, 40), success(2, 20), success(0, 0), success(3, 30), success(1, 10)]
    };
    for n in 0..6usize {
        let taken = scrambled().take_ordered(n);
        let full: Vec<TestOutcome> = scrambled().into_ordered().into_iter().take(n).collect();
        assert_eq!(taken.len(), full.len());
        for (a, b) in taken.iter().zip(full.iter()) {
            assert_eq!(a.index(), b.index());
        }
    }
}

#[test]
fn with_limit_caps_the_yield() {
    let ordered: Vec<TestOutcome> = (0..5).map(|i| success(i, i * 2)).collect();
    let mut it = OutcomeIterator::with_limit(ordered, 2);
    assert_eq!(it.next().unwrap().index(), 0);
    assert_eq!(it.next().unwrap().index(), 1);
    assert!(it.next().is_none());
}

#[test]
fn sorted_results_match_ordered_results() {
    let scrambled: Vec<TestOutcome> = vec![
        success(2, 20),
        Outcome::Failure {
            index: 0,
            input: None,
            error: "boom".to_string(),
        },
        success(1, 10),
    ];
    let mut sorted: Vec<(usize, Result<usize, String>)> = scrambled
        .iter()
        .map(|o| {
            (
                o.index(),
                match o {
                    Outcome::Success { value, .. } => Ok(*value),
                    Outcome::Failure { error, .. } => Err(error.clone()),
                    _ => panic!("unexpected variant"),
                },
            )
        })
        .collect();
    sorted.sort_by_key(|p| p.0);
    let by_sorting: Vec<Result<usize, String>> = sorted.into_iter().map(|p| p.1).collect();
    let by_ordering = scrambled.into_ordered_results();
    assert_eq!(by_sorting, by_ordering);
}

#[test]
fn ordered_outputs_unwrap_successes() {
    let scrambled: Vec<TestOutcome> = vec![success(1, 11), success(2, 22), success(0, 0)];
    let outputs = scrambled.into_ordered_outputs();
    assert_eq!(outputs, vec![0, 11, 22]);
}

#[test]
fn unordered_results_keep_arrival_order() {
    let outcomes: Vec<TestOutcome> = vec![
        success(1, 10),
        Outcome::MaxRetriesAttempted {
            index: 0,
            input: 9,
            error: "worn out".to_string(),
        },
    ];
    let results = outcomes.into_results();
    assert_eq!(results[0], Ok(10));
    assert_eq!(results[1], Err("worn out".to_string()));
}

#[test]
fn take_outputs_stops_at_count() {
    let outcomes: Vec<TestOutcome> = (0..4).map(|i| success(i, i + 100)).collect();
    let outputs = outcomes.take_outputs(2);
    assert_eq!(outputs, vec![100, 101]);
}

#[test]
fn panic_outcome_counts_as_failure() {
    let payload = PanicPayload::of_message("worker exploded".to_string());
    let outcomes: Vec<TestOutcome> = vec![
        success(0, 0),
        Outcome::Panic {
            index: 1,
            input: Some(1),
            payload: Panic::new(payload, Some("task one".to_string())),
        },
        success(2, 2),
        success(3, 3),
    ];
    let batch = OutcomeBatch::from_outcomes(outcomes);
    assert_eq!(batch.num_failures(), 1);
    assert_eq!(batch.num_successes(), 3);
    let failures = batch.iter_failures();
    let failure = failures.into_iter().next().unwrap();
    assert_eq!(failure.index(), 1);
    assert!(matches!(failure, Outcome::Panic { .. }));
}

#[test]
fn panic_keeps_payload_and_detail() {
    let payload = PanicPayload::of_message("kaboom".to_string());
    let p: Panic<String> = Panic::new(payload, Some("detail".to_string()));
    assert_eq!(p.detail().map(|d| d.as_str()), Some("detail"));
    assert_eq!(p.payload().message(), Some("kaboom"));
}

#[test]
fn into_result_maps_variants() {
    let s: TestOutcome = success(0, 5);
    assert_eq!(s.into_result(), Ok(5));
    let f: TestOutcome = Outcome::Failure {
        index: 1,
        input: None,
        error: "bad".to_string(),
    };
    assert_eq!(f.into_result(), Err("bad".to_string()));
    let m: TestOutcome = Outcome::MaxRetriesAttempted {
        index: 2,
        input: 4,
        error: "spent".to_string(),
    };
    assert_eq!(m.into_result(), Err("spent".to_string()));
}

#[test]
fn unprocessed_outcomes_are_tolerated_lax() {
    let outcomes: Vec<TestOutcome> = vec![
        success(0, 0),
        Outcome::Unprocessed { index: 1, input: 1 },
    ];
    let batch = OutcomeBatch::from_outcomes(outcomes);
    assert_eq!(batch.num_failures(), 0);
    assert_eq!(batch.num_unprocessed(), 1);
    let strict_batch = OutcomeBatch::from_outcomes(vec![
        success(0, 0),
        Outcome::Unprocessed { index: 1, input: 1 },
    ]);
    assert!(matches!(strict_batch.ok_or_unwrap_errors(true), Err(_)));
    assert!(matches!(batch.ok_or_unwrap_errors(false), Ok(_)));
}

#[test]
fn backoff_doubles_and_caps() {
    assert_eq!(drudge::hive::backoff_nanos(100, 0, 30_000), 100);
    assert_eq!(drudge::hive::backoff_nanos(100, 1, 30_000), 200);
    assert_eq!(drudge::hive::backoff_nanos(100, 3, 30_000), 800);
    assert_eq!(drudge::hive::backoff_nanos(100, 10, 30_000), 30_000);
    assert_eq!(drudge::hive::backoff_nanos(0, 5, 30_000), 0);
    assert_eq!(drudge::hive::backoff_nanos(50_000, 0, 30_000), 30_000);
}

#[test]
fn builder_defaults_and_setters() {
    let builder = drudge::hive::Builder::default();
    assert_eq!(builder.get_num_threads(), 1);
    assert_eq!(builder.get_max_retries(), 0);
    assert_eq!(builder.backoff_for(0), 100_000_000);
    assert_eq!(builder.backoff_for(9), 30_000_000_000);
    let builder = builder.num_threads(4).max_retries(3);
    assert_eq!(builder.get_num_threads(), 4);
    assert_eq!(builder.get_max_retries(), 3);
}
