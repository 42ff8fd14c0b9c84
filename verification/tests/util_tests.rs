use drudge::outcome::Outcome;
use drudge::task::ApplyError;
use drudge::task::Context;

#[test]
fn test_map() {
    let outputs = drudge::util::map(4, (0..100usize).collect::<Vec<usize>>(), |i| i + 1);
    assert_eq!(outputs, (1..=100).collect::<Vec<_>>());
}

#[test]
fn test_try_map() {
    let result = drudge::util::try_map(4, (0..100usize).collect::<Vec<usize>>(), |i| {
        if i == 50 {
            Err("Fiddy!")
        } else {
            Ok(i + 1)
        }
    });
    assert!(result.has_failures());
    assert_eq!(1, result.num_failures());
    assert!(matches!(
        result.iter_failures().into_iter().next().unwrap(),
        Outcome::Failure { .. }
    ));
    assert_eq!(99, result.num_successes());
    assert!(matches!(result.ok_or_unwrap_errors(true), Err(_)));
}

#[test]
fn test_try_map_retryable() {
    let result = drudge::util::try_map_retryable(
        4,
        3,
        (0..100usize).collect::<Vec<usize>>(),
        |i, ctx: Context| {
            if i != 50 {
                Ok(i + 1)
            } else if ctx.attempt() == 3 {
                Ok(500)
            } else {
                Err(ApplyError::Retryable {
                    input: 50,
                    error: format!("Fiddy {}", ctx.attempt()),
                })
            }
        },
    );
    assert!(!result.has_failures());
}

#[test]
fn test_try_map_retyrable_fail() {
    let result = drudge::util::try_map_retryable(
        4,
        3,
        (0..100usize).collect::<Vec<usize>>(),
        |i, ctx: Context| {
            if i != 50 {
                Ok(i + 1)
            } else {
                Err(ApplyError::Retryable {
                    input: 50,
                    error: format!("Fiddy {}", ctx.attempt()),
                })
            }
        },
    );
    assert!(result.has_failures());
    assert!(result.num_failures() == 1);
    assert!(matches!(
        result.iter_failures().into_iter().next().unwrap(),
        Outcome::MaxRetriesAttempted { .. }
    ))
}

#[test]
fn pure_map_outputs_sum() {
    let outputs = drudge::util::map(4, (2..9usize).collect::<Vec<usize>>(), |i| i + 1);
    assert_eq!(outputs.iter().sum::<usize>(), 42);
    assert_eq!(outputs, vec![3, 4, 5, 6, 7, 8, 9]);
}

#[test]
fn non_retryable_failure_is_isolated() {
    let result = drudge::util::try_map(4, (0..10usize).collect::<Vec<usize>>(), |i| {
        if i == 5 {
            Err("no fives")
        } else {
            Ok(i * i)
        }
    });
    assert_eq!(result.num_failures(), 1);
    assert_eq!(result.num_successes(), 9);
    let failures = result.iter_failures();
    let failure = failures.into_iter().next().unwrap();
    assert_eq!(failure.index(), 5);
    assert!(matches!(failure, Outcome::Failure { .. }));
}

#[test]
fn retry_to_success_keeps_value() {
    let result = drudge::util::try_map_retryable(
        4,
        3,
        (0..100usize).collect::<Vec<usize>>(),
        |i, ctx: Context| {
            if i != 50 {
                Ok(i + 1)
            } else if ctx.attempt() == 3 {
                Ok(500)
            } else {
                Err(ApplyError::Retryable {
                    input: 50,
                    error: "again".to_string(),
                })
            }
        },
    );
    assert!(!result.has_failures());
    let outcomes = result.into_outcomes();
    match &outcomes[50] {
        Outcome::Success { index, value } => {
            assert_eq!(*index, 50);
            assert_eq!(*value, 500);
        }
        _ => panic!("outcome 50 should be a success"),
    }
}

#[test]
fn single_thread_is_legal() {
    let result = drudge::util::try_map_retryable(
        1,
        2,
        (0..10usize).collect::<Vec<usize>>(),
        |i, ctx: Context| {
            if i == 3 && ctx.attempt() < 2 {
                Err(ApplyError::Retryable {
                    input: i,
                    error: "again".to_string(),
                })
            } else {
                Ok(i)
            }
        },
    );
    assert!(!result.has_failures());
    assert_eq!(result.len(), 10);
}

#[test]
fn empty_inputs_give_empty_outcomes() {
    let outputs = drudge::util::map(4, Vec::<usize>::new(), |i| i + 1);
    assert!(outputs.is_empty());
    let result = drudge::util::try_map(4, Vec::<usize>::new(), |i| Ok::<usize, &str>(i));
    assert_eq!(result.len(), 0);
    assert!(!result.has_failures());
}

#[test]
fn zero_retries_exhausts_immediately() {
    let result = drudge::util::try_map_retryable(
        1,
        0,
        vec![7usize],
        |i, ctx: Context| -> Result<usize, ApplyError<usize, String>> {
            assert_eq!(ctx.attempt(), 0);
            Err(ApplyError::Retryable {
                input: i,
                error: "always".to_string(),
            })
        },
    );
    assert_eq!(result.num_failures(), 1);
    let outcomes = result.into_outcomes();
    match &outcomes[0] {
        Outcome::MaxRetriesAttempted { index, input, .. } => {
            assert_eq!(*index, 0);
            assert_eq!(*input, 7);
        }
        _ => panic!("outcome should be retry exhaustion"),
    }
}

#[test]
fn attempts_count_up_from_zero() {
    let seen = std::cell::RefCell::new(Vec::new());
    let result = drudge::util::try_map_retryable(1, 3, vec![0usize], |i, ctx: Context| {
        seen.borrow_mut().push(ctx.attempt());
        if ctx.attempt() < 3 {
            Err(ApplyError::Retryable {
                input: i,
                error: "again".to_string(),
            })
        } else {
            Ok(i)
        }
    });
    assert!(!result.has_failures());
    assert_eq!(*seen.borrow(), vec![0, 1, 2, 3]);
}

#[test]
fn fatal_errors_are_terminal() {
    let result = drudge::util::try_map_retryable(
        2,
        5,
        (0..4usize).collect::<Vec<usize>>(),
        |i, _ctx: Context| {
            if i == 2 {
                Err(ApplyError::Fatal {
                    error: "fatal".to_string(),
                })
            } else {
                Ok(i)
            }
        },
    );
    assert_eq!(result.num_failures(), 1);
    let outcomes = result.into_outcomes();
    match &outcomes[2] {
        Outcome::Failure { index, input, error } => {
            assert_eq!(*index, 2);
            assert!(input.is_none());
            assert_eq!(error, "fatal");
        }
        _ => panic!("outcome should be a terminal failure"),
    }
}

#[test]
fn ok_or_unwrap_errors_in_index_order() {
    let result = drudge::util::try_map(3, (0..6usize).collect::<Vec<usize>>(), |i| {
        Ok::<usize, &str>(i * 10)
    });
    let values = result.ok_or_unwrap_errors(true).unwrap();
    assert_eq!(values, vec![0, 10, 20, 30, 40, 50]);
}
