//! The per-task lifecycle: the context handed to each worker call, the
//! worker's error taxonomy, and the retry scheduling decision applied after
//! every attempt.

use vstd::prelude::*;
use crate::outcome::Outcome;

verus! {

/// A read-only view passed to each worker call: the task `index`, the
/// zero-based `attempt` count, and optional user-facing `detail`.
#[derive(Clone)]
pub struct Context {
    pub index: usize,
    pub attempt: u32,
    pub detail: Option<String>,
}

impl Context {
    /// Builds the context of a task's first attempt.
    pub fn new(index: usize, detail: Option<String>) -> (r: Context)
        ensures
            r == (Context { index, attempt: 0, detail }),
    {
        Context { index, attempt: 0, detail }
    }

    /// Returns the zero-based attempt count: 0 on the first call, one more
    /// on each retry.
    pub fn attempt(&self) -> (r: u32)
        ensures
            r == self.attempt,
    {
        self.attempt
    }

    /// Returns the submission index of the task.
    pub fn index(&self) -> (r: usize)
        ensures
            r == self.index,
    {
        self.index
    }
}

/// The context a task carries on a given attempt, with no user detail.
pub open spec fn ctx(index: usize, attempt: u32) -> Context {
    Context { index, attempt, detail: None }
}

/// The error a worker call reports, deciding the task's fate.
#[allow(inconsistent_fields)]
pub enum ApplyError<I, E> {
    /// A transient failure: the input is handed back for re-submission.
    Retryable { input: I, error: E },
    /// A terminal failure.
    NotRetryable { input: Option<I>, error: E },
    /// A terminal failure after which the pool should stop accepting work.
    Fatal { error: E },
}

/// The input a task can carry into the worker call at attempt `a`: at
/// attempt 0 it is the submitted input itself, and at attempt `a > 0` it is
/// an input some reachable call at attempt `a - 1` handed back with a
/// retryable failure.
pub open spec fn reachable_input<I, O, E, F: Fn(I, Context) -> Result<O, ApplyError<I, E>>>(
    f: F,
    index: usize,
    first: I,
    i: I,
    a: u32,
) -> bool
    decreases a,
{
    if a == 0 {
        i == first
    } else {
        exists|p: I, e: E|
            reachable_input(f, index, first, p, (a - 1) as u32) && #[trigger] call_ensures(
                f,
                (p, ctx(index, (a - 1) as u32)),
                Err(ApplyError::Retryable { input: i, error: e }),
            )
    }
}

/// The attempt count is 0 on a task's first call: the submitted input, and
/// it alone, is reachable at attempt 0.
pub proof fn lemma_first_attempt<I, O, E, F: Fn(I, Context) -> Result<O, ApplyError<I, E>>>(
    f: F,
    index: usize,
    first: I,
    i: I,
)
    ensures
        reachable_input(f, index, first, i, 0) <==> i == first,
{
}

/// The attempt count rises by exactly 1 on each retry, and the index never
/// changes: a worker call at attempt `a > 0` is reached only through a
/// retryable failure of a reachable call at attempt `a - 1` on the same
/// index.
pub proof fn lemma_attempt_chain<I, O, E, F: Fn(I, Context) -> Result<O, ApplyError<I, E>>>(
    f: F,
    index: usize,
    first: I,
    i: I,
    a: u32,
)
    requires
        a > 0,
        reachable_input(f, index, first, i, a),
    ensures
        exists|p: I, e: E|
            reachable_input(f, index, first, p, (a - 1) as u32) && #[trigger] call_ensures(
                f,
                (p, ctx(index, (a - 1) as u32)),
                Err(ApplyError::<I, E>::Retryable { input: i, error: e }),
            ),
{
}

/// Some worker call on an input the task can reach from its submitted
/// input, within the retry budget, may return `Ok(value)`.
pub open spec fn success_justified<I, O, E, F: Fn(I, Context) -> Result<O, ApplyError<I, E>>>(
    f: F,
    index: usize,
    first: I,
    max_retries: u32,
    value: O,
) -> bool {
    exists|i: I, a: u32|
        a <= max_retries && reachable_input(f, index, first, i, a) && #[trigger] call_ensures(
            f,
            (i, ctx(index, a)),
            Ok(value),
        )
}

/// Some worker call on an input the task can reach from its submitted
/// input, within the retry budget, may report this terminal error.
pub open spec fn failure_justified<I, O, E, F: Fn(I, Context) -> Result<O, ApplyError<I, E>>>(
    f: F,
    index: usize,
    first: I,
    max_retries: u32,
    input: Option<I>,
    error: E,
) -> bool {
    exists|i: I, a: u32|
        #![trigger call_ensures(f, (i, ctx(index, a)), Err(ApplyError::NotRetryable { input, error }))]
        #![trigger call_ensures(f, (i, ctx(index, a)), Err(ApplyError::<I, E>::Fatal { error }))]
        a <= max_retries && reachable_input(f, index, first, i, a) && (call_ensures(
            f,
            (i, ctx(index, a)),
            Err(ApplyError::NotRetryable { input, error }),
        ) || (input is None && call_ensures(f, (i, ctx(index, a)), Err(ApplyError::Fatal { error }))))
}

/// Some worker call on an input the task can reach from its submitted
/// input, at the last attempt the budget allows, may report this retryable
/// error, handing this input back.
pub open spec fn exhaustion_justified<I, O, E, F: Fn(I, Context) -> Result<O, ApplyError<I, E>>>(
    f: F,
    index: usize,
    first: I,
    max_retries: u32,
    input: I,
    error: E,
) -> bool {
    exists|i: I|
        reachable_input(f, index, first, i, max_retries) && #[trigger] call_ensures(
            f,
            (i, ctx(index, max_retries)),
            Err(ApplyError::<I, E>::Retryable { input, error }),
        )
}

/// What the retry scheduler decides after one worker attempt: either the
/// task retires with an outcome, or it is re-applied with the next attempt
/// count.
pub enum RetryStep<I, O, E> {
    Finish(Outcome<I, O, E>),
    Reapply { input: I, attempt: u32 },
}

/// Classifies the result of one worker attempt.
///
/// A success or a terminal error retires the task at once. A retryable error
/// is re-applied with the attempt count raised by one while attempts remain,
/// and retires as `MaxRetriesAttempted` once `attempt` has reached
/// `max_retries` — with a budget of zero, a retryable error becomes
/// `MaxRetriesAttempted` immediately.
pub fn retry_step<I, O, E>(
    res: Result<O, ApplyError<I, E>>,
    index: usize,
    attempt: u32,
    max_retries: u32,
) -> (r: RetryStep<I, O, E>)
    requires
        attempt <= max_retries,
    ensures
        (res matches Ok(value) ==> r == RetryStep::Finish(
            Outcome::<I, O, E>::Success { index, value },
        )),
        (res matches Err(ApplyError::NotRetryable { input, error }) ==> r == RetryStep::Finish(
            Outcome::<I, O, E>::Failure { index, input, error },
        )),
        (res matches Err(ApplyError::Fatal { error }) ==> r == RetryStep::Finish(
            Outcome::<I, O, E>::Failure { index, input: None, error },
        )),
        (res matches Err(ApplyError::Retryable { input, error }) ==> {
            &&& attempt == max_retries ==> r == RetryStep::Finish(
                Outcome::<I, O, E>::MaxRetriesAttempted { index, input, error },
            )
            &&& attempt < max_retries ==> r == (RetryStep::<I, O, E>::Reapply {
                input,
                attempt: (attempt + 1) as u32,
            })
        }),
{
    match res {
        Ok(value) => RetryStep::Finish(Outcome::Success { index, value }),
        Err(ApplyError::NotRetryable { input, error }) => RetryStep::Finish(
            Outcome::Failure { index, input, error },
        ),
        Err(ApplyError::Fatal { error }) => RetryStep::Finish(
            Outcome::Failure { index, input: None, error },
        ),
        Err(ApplyError::Retryable { input, error }) => {
            if attempt < max_retries {
                RetryStep::Reapply { input, attempt: attempt + 1 }
            } else {
                RetryStep::Finish(Outcome::MaxRetriesAttempted { index, input, error })
            }
        },
    }
}

/// Runs one task to retirement: applies the worker, and on each retryable
/// failure re-applies it with the handed-back input and the next attempt
/// count, up to `max_retries` additional attempts. Exactly one outcome comes
/// back, tagged with the task's `index`; intermediate failures are not
/// emitted. The first call carries attempt 0 and the submitted input, and
/// every outcome is justified by calls on inputs reachable from it.
pub fn run_task<I, O, E, F: Fn(I, Context) -> Result<O, ApplyError<I, E>>>(
    f: &F,
    input: I,
    index: usize,
    max_retries: u32,
) -> (r: Outcome<I, O, E>)
    requires
        forall|i: I, c: Context|
            c.index == index && c.attempt <= max_retries && c.detail is None && reachable_input(
                *f,
                index,
                input,
                i,
                c.attempt,
            ) ==> #[trigger] call_requires(*f, (i, c)),
    ensures
        r.spec_index() == index,
        r is Success || r is Failure || r is MaxRetriesAttempted,
        (r matches Outcome::Success { value, .. } ==> success_justified(
            *f,
            index,
            input,
            max_retries,
            value,
        )),
        (r matches Outcome::Failure { input: fi, error, .. } ==> failure_justified(
            *f,
            index,
            input,
            max_retries,
            fi,
            error,
        )),
        (r matches Outcome::MaxRetriesAttempted { input: fi, error, .. } ==> exhaustion_justified(
            *f,
            index,
            input,
            max_retries,
            fi,
            error,
        )),
        ((forall|out: Result<O, ApplyError<I, E>>|
            #[trigger] call_ensures(*f, (input, ctx(index, 0)), out) ==> out is Ok) ==> r
            is Success),
{
    let mut current = input;
    let mut attempt: u32 = 0;
    loop
        invariant
            attempt <= max_retries,
            reachable_input(*f, index, input, current, attempt),
            forall|i: I, c: Context|
                c.index == index && c.attempt <= max_retries && c.detail is None
                    && reachable_input(*f, index, input, i, c.attempt) ==> #[trigger] call_requires(
                    *f,
                    (i, c),
                ),
            (forall|out: Result<O, ApplyError<I, E>>|
                #[trigger] call_ensures(*f, (input, ctx(index, 0)), out) ==> out is Ok) ==> (
            attempt == 0 && current == input),
        decreases max_retries - attempt,
    {
        let ghost this_input = current;
        let ghost this_attempt = attempt;
        let res = f(current, Context { index, attempt, detail: None });
        let ghost gres = res;
        proof {
            assert(call_ensures(*f, (this_input, ctx(index, this_attempt)), gres));
        }
        match retry_step(res, index, attempt, max_retries) {
            RetryStep::Finish(outcome) => {
                proof {
                    match gres {
                        Ok(v) => {
                            assert(outcome == (Outcome::<I, O, E>::Success { index, value: v }));
                            assert(call_ensures(
                                *f,
                                (this_input, ctx(index, this_attempt)),
                                Ok(v),
                            ));
                            assert(success_justified(*f, index, input, max_retries, v));
                        },
                        Err(ApplyError::NotRetryable { input: ni, error: e }) => {
                            assert(outcome == (Outcome::<I, O, E>::Failure {
                                index,
                                input: ni,
                                error: e,
                            }));
                            assert(call_ensures(
                                *f,
                                (this_input, ctx(index, this_attempt)),
                                Err(ApplyError::NotRetryable { input: ni, error: e }),
                            ));
                            assert(failure_justified(*f, index, input, max_retries, ni, e));
                        },
                        Err(ApplyError::Fatal { error: e }) => {
                            assert(outcome == (Outcome::<I, O, E>::Failure {
                                index,
                                input: None,
                                error: e,
                            }));
                            assert(call_ensures(
                                *f,
                                (this_input, ctx(index, this_attempt)),
                                Err(ApplyError::<I, E>::Fatal { error: e }),
                            ));
                            assert(failure_justified(*f, index, input, max_retries, None, e));
                        },
                        Err(ApplyError::Retryable { input: ri, error: e }) => {
                            assert(outcome == (Outcome::<I, O, E>::MaxRetriesAttempted {
                                index,
                                input: ri,
                                error: e,
                            }));
                            assert(this_attempt == max_retries);
                            assert(call_ensures(
                                *f,
                                (this_input, ctx(index, max_retries)),
                                Err(ApplyError::<I, E>::Retryable { input: ri, error: e }),
                            ));
                            assert(exhaustion_justified(*f, index, input, max_retries, ri, e));
                        },
                    }
                }
                return outcome;
            },
            RetryStep::Reapply { input: next_input, attempt: next_attempt } => {
                proof {
                    match gres {
                        Err(ApplyError::Retryable { input: ri, error: e }) => {
                            assert(next_input == ri && next_attempt == this_attempt + 1);
                            assert(call_ensures(
                                *f,
                                (this_input, ctx(index, this_attempt)),
                                Err(ApplyError::<I, E>::Retryable { input: ri, error: e }),
                            ));
                            assert(reachable_input(
                                *f,
                                index,
                                input,
                                ri,
                                (this_attempt + 1) as u32,
                            ));
                        },
                        _ => {
                            assert(false);
                        },
                    }
                }
                current = next_input;
                attempt = next_attempt;
            },
        }
    }
}

} // verus!
