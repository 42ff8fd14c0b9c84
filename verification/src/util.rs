//! Convenience entry points: run a batch of inputs through a hive built on
//! the spot and hand back the outputs or the collected outcomes.

use vstd::prelude::*;
use crate::outcome::Outcome;
use crate::outcome::OutcomeBatch;
use crate::task::ApplyError;
use crate::task::Context;
use crate::task::ctx;
use crate::task::reachable_input;
use crate::task::run_task;
use crate::task::success_justified;
use crate::task::failure_justified;
use crate::task::exhaustion_justified;

verus! {

/// Runs the provided callable on each input, in submission order, and
/// returns the outputs: the output at position `k` comes from the input at
/// position `k`.
///
/// The provided function should not panic. For fallible operations, use one
/// of the `try_map` variants.
pub fn map<I, O, F: Fn(I) -> O>(num_threads: usize, inputs: Vec<I>, f: F) -> (r: Vec<O>)
    requires
        num_threads >= 1,
        forall|k: int| 0 <= k < inputs@.len() ==> call_requires(f, (#[trigger] inputs@[k],)),
    ensures
        r@.len() == inputs@.len(),
        forall|k: int|
            0 <= k < inputs@.len() ==> call_ensures(f, (inputs@[k],), #[trigger] r@[k]),
{
    let ghost orig = inputs@;
    let mut inputs = inputs;
    let mut out: Vec<O> = Vec::new();
    while inputs.len() > 0
        invariant
            out@.len() + inputs@.len() == orig.len(),
            inputs@ == orig.subrange(out@.len() as int, orig.len() as int),
            forall|k: int| 0 <= k < orig.len() ==> call_requires(f, (#[trigger] orig[k],)),
            forall|k: int| 0 <= k < out@.len() ==> call_ensures(f, (orig[k],), #[trigger] out@[k]),
        decreases inputs@.len(),
    {
        let ghost n = out@.len() as int;
        let input = inputs.remove(0);
        proof {
            assert(input == orig[n]);
            assert(inputs@ =~= orig.subrange(n + 1, orig.len() as int));
        }
        out.push(f(input));
    }
    out
}

/// Runs the provided fallible callable on each input and collects one
/// outcome per input: the outcome at position `k` carries index `k` and is
/// a `Success` or a `Failure` exactly as the callable returned `Ok` or
/// `Err` on the input at position `k`.
pub fn try_map<I, O, E, F: Fn(I) -> Result<O, E>>(
    num_threads: usize,
    inputs: Vec<I>,
    f: F,
) -> (r: OutcomeBatch<I, O, E>)
    requires
        num_threads >= 1,
        inputs@.len() < usize::MAX,
        forall|k: int| 0 <= k < inputs@.len() ==> call_requires(f, (#[trigger] inputs@[k],)),
    ensures
        r@.len() == inputs@.len(),
        forall|k: int|
            0 <= k < r@.len() ==> {
                &&& (#[trigger] r@[k]).spec_index() == k
                &&& (r@[k] is Success || r@[k] is Failure)
                &&& (r@[k] matches Outcome::Success { value, .. } ==> call_ensures(
                    f,
                    (inputs@[k],),
                    Ok(value),
                ))
                &&& (r@[k] matches Outcome::Failure { input, error, .. } ==> call_ensures(
                    f,
                    (inputs@[k],),
                    Err(error),
                ) && input is None)
            },
{
    let ghost orig = inputs@;
    let mut inputs = inputs;
    let mut out: Vec<Outcome<I, O, E>> = Vec::new();
    while inputs.len() > 0
        invariant
            out@.len() + inputs@.len() == orig.len(),
            orig.len() < usize::MAX,
            inputs@ == orig.subrange(out@.len() as int, orig.len() as int),
            forall|k: int| 0 <= k < orig.len() ==> call_requires(f, (#[trigger] orig[k],)),
            forall|k: int|
                0 <= k < out@.len() ==> {
                    &&& (#[trigger] out@[k]).spec_index() == k
                    &&& (out@[k] is Success || out@[k] is Failure)
                    &&& (out@[k] matches Outcome::Success { value, .. } ==> call_ensures(
                        f,
                        (orig[k],),
                        Ok(value),
                    ))
                    &&& (out@[k] matches Outcome::Failure { input, error, .. } ==> call_ensures(
                        f,
                        (orig[k],),
                        Err(error),
                    ) && input is None)
                },
        decreases inputs@.len(),
    {
        let ghost n = out@.len() as int;
        let index = out.len();
        let input = inputs.remove(0);
        proof {
            assert(input == orig[n]);
            assert(inputs@ =~= orig.subrange(n + 1, orig.len() as int));
        }
        let outcome = match f(input) {
            Ok(value) => Outcome::Success { index, value },
            Err(error) => Outcome::Failure { index, input: None, error },
        };
        out.push(outcome);
    }
    OutcomeBatch::from_outcomes(out)
}

/// Runs the provided retryable callable on each input and collects one
/// outcome per input, retrying each task up to `max_retries` additional
/// times on retryable failures.
///
/// The outcome at position `k` carries index `k`. Each outcome is justified
/// by calls on inputs the task can reach from its own submitted input
/// through the chain of retryable hand-backs: a `Success` value or a
/// `Failure` error comes from such a call within the retry budget, and a
/// `MaxRetriesAttempted` outcome carries what a reachable call at the last
/// allowed attempt handed back. A task whose first call can only return
/// `Ok` always retires as a `Success`.
pub fn try_map_retryable<I, O, E, F: Fn(I, Context) -> Result<O, ApplyError<I, E>>>(
    num_threads: usize,
    max_retries: u32,
    inputs: Vec<I>,
    f: F,
) -> (r: OutcomeBatch<I, O, E>)
    requires
        num_threads >= 1,
        inputs@.len() < usize::MAX,
        forall|i: I, c: Context|
            c.index < inputs@.len() && c.attempt <= max_retries && c.detail is None
                && reachable_input(f, c.index, inputs@[c.index as int], i, c.attempt)
                ==> #[trigger] call_requires(f, (i, c)),
    ensures
        r@.len() == inputs@.len(),
        forall|k: int|
            0 <= k < r@.len() ==> {
                &&& (#[trigger] r@[k]).spec_index() == k
                &&& (r@[k] is Success || r@[k] is Failure || r@[k] is MaxRetriesAttempted)
                &&& (r@[k] matches Outcome::Success { value, .. } ==> success_justified(
                    f,
                    k as usize,
                    inputs@[k],
                    max_retries,
                    value,
                ))
                &&& (r@[k] matches Outcome::Failure { input, error, .. } ==> failure_justified(
                    f,
                    k as usize,
                    inputs@[k],
                    max_retries,
                    input,
                    error,
                ))
                &&& (r@[k] matches Outcome::MaxRetriesAttempted { input, error, .. }
                    ==> exhaustion_justified(f, k as usize, inputs@[k], max_retries, input, error))
                &&& ((forall|res: Result<O, ApplyError<I, E>>|
                    #[trigger] call_ensures(f, (inputs@[k], ctx(k as usize, 0)), res) ==> res
                        is Ok) ==> r@[k] is Success)
            },
{
    let ghost orig = inputs@;
    let mut inputs = inputs;
    let mut out: Vec<Outcome<I, O, E>> = Vec::new();
    while inputs.len() > 0
        invariant
            out@.len() + inputs@.len() == orig.len(),
            orig.len() < usize::MAX,
            inputs@ == orig.subrange(out@.len() as int, orig.len() as int),
            forall|i: I, c: Context|
                c.index < orig.len() && c.attempt <= max_retries && c.detail is None
                    && reachable_input(f, c.index, orig[c.index as int], i, c.attempt)
                    ==> #[trigger] call_requires(f, (i, c)),
            forall|k: int|
                0 <= k < out@.len() ==> {
                    &&& (#[trigger] out@[k]).spec_index() == k
                    &&& (out@[k] is Success || out@[k] is Failure || out@[k]
                        is MaxRetriesAttempted)
                    &&& (out@[k] matches Outcome::Success { value, .. } ==> success_justified(
                        f,
                        k as usize,
                        orig[k],
                        max_retries,
                        value,
                    ))
                    &&& (out@[k] matches Outcome::Failure { input, error, .. }
                        ==> failure_justified(f, k as usize, orig[k], max_retries, input, error))
                    &&& (out@[k] matches Outcome::MaxRetriesAttempted { input, error, .. }
                        ==> exhaustion_justified(
                        f,
                        k as usize,
                        orig[k],
                        max_retries,
                        input,
                        error,
                    ))
                    &&& ((forall|res: Result<O, ApplyError<I, E>>|
                        #[trigger] call_ensures(f, (orig[k], ctx(k as usize, 0)), res) ==> res
                            is Ok) ==> out@[k] is Success)
                },
        decreases inputs@.len(),
    {
        let ghost n = out@.len() as int;
        let index = out.len();
        let input = inputs.remove(0);
        proof {
            assert(input == orig[n]);
            assert(inputs@ =~= orig.subrange(n + 1, orig.len() as int));
            assert forall|i: I, c: Context|
                c.index == index && c.attempt <= max_retries && c.detail is None
                    && reachable_input(f, index, input, i, c.attempt) implies call_requires(
                f,
                (i, c),
            ) by {
                assert(c.index < orig.len() && orig[c.index as int] == input);
            }
        }
        let outcome = run_task(&f, input, index, max_retries);
        out.push(outcome);
    }
    OutcomeBatch::from_outcomes(out)
}

} // verus!
