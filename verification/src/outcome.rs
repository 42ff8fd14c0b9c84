//! The per-task result model: every submitted task retires with exactly one
//! `Outcome`, tagged with the task's submission `index`.

use vstd::prelude::*;
use crate::panic::Panic;

verus! {

/// The single tagged result of running a task.
#[allow(inconsistent_fields)]
pub enum Outcome<I, O, E> {
    /// The task returned a value.
    Success { index: usize, value: O },
    /// The task failed with a non-retryable error.
    Failure { index: usize, input: Option<I>, error: E },
    /// The task kept failing retryably until the retry budget was exhausted.
    MaxRetriesAttempted { index: usize, input: I, error: E },
    /// The worker panicked while running the task.
    Panic { index: usize, input: Option<I>, payload: Panic<String> },
    /// The pool shut down before the task ran.
    Unprocessed { index: usize, input: I },
}

impl<I, O, E> Outcome<I, O, E> {
    /// The submission index of the task this outcome belongs to.
    pub open spec fn spec_index(self) -> usize {
        match self {
            Outcome::Success { index, .. } => index,
            Outcome::Failure { index, .. } => index,
            Outcome::MaxRetriesAttempted { index, .. } => index,
            Outcome::Panic { index, .. } => index,
            Outcome::Unprocessed { index, .. } => index,
        }
    }

    /// An outcome counts as a failure when the task ran and did not succeed.
    pub open spec fn spec_is_failure(self) -> bool {
        self is Failure || self is MaxRetriesAttempted || self is Panic
    }

    /// Returns the submission index of the task this outcome belongs to.
    pub fn index(&self) -> (r: usize)
        ensures
            r == self.spec_index(),
    {
        match self {
            Outcome::Success { index, .. } => *index,
            Outcome::Failure { index, .. } => *index,
            Outcome::MaxRetriesAttempted { index, .. } => *index,
            Outcome::Panic { index, .. } => *index,
            Outcome::Unprocessed { index, .. } => *index,
        }
    }

    /// Returns whether this outcome is a `Success`.
    pub fn is_success(&self) -> (r: bool)
        ensures
            r == (self is Success),
    {
        matches!(self, Outcome::Success { .. })
    }

    /// Returns whether this outcome counts as a failure.
    pub fn is_failure(&self) -> (r: bool)
        ensures
            r == self.spec_is_failure(),
    {
        matches!(
            self,
            Outcome::Failure { .. } | Outcome::MaxRetriesAttempted { .. } | Outcome::Panic { .. }
        )
    }

    /// Consumes a `Success` outcome and returns its value.
    pub fn unwrap(self) -> (r: O)
        requires
            self is Success,
        ensures
            r == spec_output_of(self),
    {
        match self {
            Outcome::Success { value, .. } => value,
            _ => vstd::pervasive::unreached(),
        }
    }

    /// Consumes this outcome and converts it to a task result: `Ok(value)`
    /// for a success, `Err(error)` for a failure or an exhausted retry
    /// budget. Panicked and unprocessed outcomes have no error value of type
    /// `E` and are left out by the precondition.
    pub fn into_result(self) -> (r: Result<O, E>)
        requires
            !(self is Panic),
            !(self is Unprocessed),
        ensures
            r == spec_result_of(self),
    {
        match self {
            Outcome::Success { value, .. } => Ok(value),
            Outcome::Failure { error, .. } => Err(error),
            Outcome::MaxRetriesAttempted { error, .. } => Err(error),
            _ => vstd::pervasive::unreached(),
        }
    }
}

/// The task result an outcome converts to: the value of a success, the error
/// of a failure or of an exhausted retry budget.
pub open spec fn spec_result_of<I, O, E>(o: Outcome<I, O, E>) -> Result<O, E>
    recommends
        !(o is Panic),
        !(o is Unprocessed),
{
    match o {
        Outcome::Success { value, .. } => Ok(value),
        Outcome::Failure { error, .. } => Err(error),
        Outcome::MaxRetriesAttempted { error, .. } => Err(error),
        Outcome::Panic { .. } => Err(arbitrary()),
        Outcome::Unprocessed { .. } => Err(arbitrary()),
    }
}

/// The output value a `Success` outcome carries.
pub open spec fn spec_output_of<I, O, E>(o: Outcome<I, O, E>) -> O
    recommends
        o is Success,
{
    match o {
        Outcome::Success { value, .. } => value,
        _ => arbitrary(),
    }
}

/// How many of the outcomes are successes.
pub open spec fn count_successes<I, O, E>(s: Seq<Outcome<I, O, E>>) -> nat
    decreases s.len(),
{
    if s.len() == 0 {
        0
    } else {
        count_successes(s.drop_last()) + if s.last() is Success {
            1nat
        } else {
            0nat
        }
    }
}

/// How many of the outcomes count as failures.
pub open spec fn count_failures<I, O, E>(s: Seq<Outcome<I, O, E>>) -> nat
    decreases s.len(),
{
    if s.len() == 0 {
        0
    } else {
        count_failures(s.drop_last()) + if s.last().spec_is_failure() {
            1nat
        } else {
            0nat
        }
    }
}

/// A failure count of zero means no element is a failure, and a positive
/// count means some element is.
pub proof fn lemma_count_failures_zero<I, O, E>(s: Seq<Outcome<I, O, E>>)
    ensures
        count_failures(s) == 0 <==> (forall|k: int|
            0 <= k < s.len() ==> !(#[trigger] s[k]).spec_is_failure()),
    decreases s.len(),
{
    if s.len() > 0 {
        lemma_count_failures_zero(s.drop_last());
        assert(forall|k: int| 0 <= k < s.len() - 1 ==> s.drop_last()[k] == s[k]);
    }
}

/// How many of the outcomes are unprocessed.
pub open spec fn count_unprocessed<I, O, E>(s: Seq<Outcome<I, O, E>>) -> nat
    decreases s.len(),
{
    if s.len() == 0 {
        0
    } else {
        count_unprocessed(s.drop_last()) + if s.last() is Unprocessed {
            1nat
        } else {
            0nat
        }
    }
}

/// The error values of the outcomes that carry one — terminal failures and
/// exhausted retry budgets — in collection order.
pub open spec fn errors_of<I, O, E>(s: Seq<Outcome<I, O, E>>) -> Seq<E>
    decreases s.len(),
{
    if s.len() == 0 {
        Seq::empty()
    } else {
        match s.last() {
            Outcome::Failure { error, .. } => errors_of(s.drop_last()).push(error),
            Outcome::MaxRetriesAttempted { error, .. } => errors_of(s.drop_last()).push(error),
            _ => errors_of(s.drop_last()),
        }
    }
}

/// The outcomes that count as failures, in collection order.
pub open spec fn failures_of<I, O, E>(s: Seq<Outcome<I, O, E>>) -> Seq<Outcome<I, O, E>>
    decreases s.len(),
{
    if s.len() == 0 {
        Seq::empty()
    } else if s.last().spec_is_failure() {
        failures_of(s.drop_last()).push(s.last())
    } else {
        failures_of(s.drop_last())
    }
}

/// The output values of the success outcomes, in sequence order, with the
/// other outcomes left out.
pub open spec fn success_outputs<I, O, E>(s: Seq<Outcome<I, O, E>>) -> Seq<O>
    decreases s.len(),
{
    if s.len() == 0 {
        Seq::empty()
    } else if s.last() is Success {
        success_outputs(s.drop_last()).push(spec_output_of(s.last()))
    } else {
        success_outputs(s.drop_last())
    }
}

/// On an all-success stream the success outputs are the outputs, position
/// by position.
proof fn lemma_success_outputs_all_success<I, O, E>(s: Seq<Outcome<I, O, E>>)
    requires
        forall|k: int| 0 <= k < s.len() ==> (#[trigger] s[k]) is Success,
    ensures
        success_outputs(s).len() == s.len(),
        forall|k: int| 0 <= k < s.len() ==> success_outputs(s)[k] == spec_output_of(#[trigger] s[k]),
    decreases s.len(),
{
    if s.len() > 0 {
        assert(forall|k: int| 0 <= k < s.len() - 1 ==> s.drop_last()[k] == s[k]);
        lemma_success_outputs_all_success(s.drop_last());
    }
}

/// Every index in the stream lies below its length, so with one outcome
/// per index the stream is complete.
pub open spec fn indices_within<I, O, E>(s: Seq<Outcome<I, O, E>>) -> bool {
    forall|j: int| 0 <= j < s.len() ==> (#[trigger] s[j]).spec_index() < s.len()
}

/// Some outcome of the stream is a success carrying this value.
pub open spec fn batch_success_value<I, O, E>(s: Seq<Outcome<I, O, E>>, v: O) -> bool {
    exists|j: int|
        0 <= j < s.len() && ((#[trigger] s[j]) matches Outcome::Success { value, .. } && value
            == v)
}

/// A collected set of outcomes, indexed by task `index`.
pub struct OutcomeBatch<I, O, E> {
    outcomes: Vec<Outcome<I, O, E>>,
}

impl<I, O, E> OutcomeBatch<I, O, E> {
    /// The outcomes this batch holds, in the order they were collected.
    pub closed spec fn view(self) -> Seq<Outcome<I, O, E>> {
        self.outcomes@
    }

    /// Collects outcomes into a batch.
    pub fn from_outcomes(outcomes: Vec<Outcome<I, O, E>>) -> (r: OutcomeBatch<I, O, E>)
        ensures
            r@ == outcomes@,
    {
        OutcomeBatch { outcomes }
    }

    /// Consumes this batch and hands its outcomes back.
    pub fn into_outcomes(self) -> (r: Vec<Outcome<I, O, E>>)
        ensures
            r@ == self@,
    {
        self.outcomes
    }

    /// Returns how many outcomes the batch holds.
    pub fn len(&self) -> (r: usize)
        ensures
            r == self@.len(),
    {
        self.outcomes.len()
    }

    /// Returns how many outcomes are successes.
    pub fn num_successes(&self) -> (r: usize)
        ensures
            r == count_successes(self@),
    {
        let mut count: usize = 0;
        let mut k: usize = 0;
        while k < self.outcomes.len()
            invariant
                k <= self.outcomes.len(),
                count == count_successes(self.outcomes@.take(k as int)),
                count <= k,
            decreases self.outcomes.len() - k,
        {
            proof {
                assert(self.outcomes@.take(k + 1).drop_last() =~= self.outcomes@.take(k as int));
                assert(self.outcomes@.take(k + 1).last() == self.outcomes@[k as int]);
            }
            if self.outcomes[k].is_success() {
                count = count + 1;
            }
            k = k + 1;
        }
        proof {
            assert(self.outcomes@.take(self.outcomes@.len() as int) =~= self.outcomes@);
        }
        count
    }

    /// Returns how many outcomes count as failures.
    pub fn num_failures(&self) -> (r: usize)
        ensures
            r == count_failures(self@),
    {
        let mut count: usize = 0;
        let mut k: usize = 0;
        while k < self.outcomes.len()
            invariant
                k <= self.outcomes.len(),
                count == count_failures(self.outcomes@.take(k as int)),
                count <= k,
            decreases self.outcomes.len() - k,
        {
            proof {
                assert(self.outcomes@.take(k + 1).drop_last() =~= self.outcomes@.take(k as int));
                assert(self.outcomes@.take(k + 1).last() == self.outcomes@[k as int]);
            }
            if self.outcomes[k].is_failure() {
                count = count + 1;
            }
            k = k + 1;
        }
        proof {
            assert(self.outcomes@.take(self.outcomes@.len() as int) =~= self.outcomes@);
        }
        count
    }

    /// Returns whether any outcome counts as a failure.
    pub fn has_failures(&self) -> (r: bool)
        ensures
            r == (count_failures(self@) > 0),
    {
        self.num_failures() > 0
    }

    /// Returns how many outcomes are unprocessed.
    pub fn num_unprocessed(&self) -> (r: usize)
        ensures
            r == count_unprocessed(self@),
    {
        let mut count: usize = 0;
        let mut k: usize = 0;
        while k < self.outcomes.len()
            invariant
                k <= self.outcomes.len(),
                count == count_unprocessed(self@.take(k as int)),
                count <= k,
            decreases self.outcomes.len() - k,
        {
            proof {
                assert(self@.take(k + 1).drop_last() =~= self@.take(k as int));
                assert(self@.take(k + 1).last() == self@[k as int]);
            }
            if matches!(self.outcomes[k], Outcome::Unprocessed { .. }) {
                count = count + 1;
            }
            k = k + 1;
        }
        proof {
            assert(self@.take(self@.len() as int) =~= self@);
        }
        count
    }

    /// Consumes this batch. When no outcome counts as a failure — and, in
    /// strict mode, none is unprocessed — returns the success outputs in
    /// index order, leaving unprocessed slots out; otherwise returns the
    /// errors of the failed and retry-exhausted outcomes, in collection
    /// order.
    pub fn ok_or_unwrap_errors(self, strict: bool) -> (r: Result<Vec<O>, Vec<E>>)
        requires
            crate::iter::valid_source(self@),
        ensures
            (r is Ok) <==> (count_failures(self@) == 0 && (strict ==> count_unprocessed(self@)
                == 0)),
            (r matches Err(es) ==> es@ == errors_of(self@)),
            (r matches Ok(vals) ==> {
                &&& exists|ord: Seq<Outcome<I, O, E>>|
                    #![trigger crate::iter::ordered_reassembly(self@, ord)]
                    crate::iter::ordered_reassembly(self@, ord) && !crate::iter::has_index(
                        self@,
                        ord.len() as int,
                    ) && vals@ == success_outputs(ord)
                &&& forall|k: int|
                    0 <= k < vals@.len() ==> batch_success_value(self@, #[trigger] vals@[k])
                &&& ((forall|k: int| 0 <= k < self@.len() ==> (#[trigger] self@[k]) is Success)
                    && indices_within(self@) ==> vals@.len() == self@.len() && forall|k: int|
                    0 <= k < vals@.len() ==> crate::iter::output_at_index(
                        self@,
                        k,
                        #[trigger] vals@[k],
                    ))
            }),
    {
        let ghost src = self@;
        let nf = self.num_failures();
        let nu = self.num_unprocessed();
        let outcomes = self.into_outcomes();
        if nf > 0 || (strict && nu > 0) {
            let mut v = outcomes;
            let mut errs: Vec<E> = Vec::new();
            while v.len() > 0
                invariant
                    v@.len() <= src.len(),
                    v@ == src.subrange(src.len() - v@.len(), src.len() as int),
                    errs@ == errors_of(src.take(src.len() - v@.len())),
                decreases v@.len(),
            {
                let ghost n = src.len() - v@.len();
                let o = v.remove(0);
                proof {
                    assert(o == src[n]);
                    assert(v@ =~= src.subrange(n + 1, src.len() as int));
                    assert(src.take(n + 1).drop_last() =~= src.take(n));
                    assert(src.take(n + 1).last() == src[n]);
                }
                match o {
                    Outcome::Failure { error, .. } => {
                        errs.push(error);
                    },
                    Outcome::MaxRetriesAttempted { error, .. } => {
                        errs.push(error);
                    },
                    _ => {},
                }
            }
            proof {
                assert(src.take(src.len() as int) =~= src);
            }
            Err(errs)
        } else {
            proof {
                lemma_count_failures_zero(src);
            }
            let ord = crate::iter::OutcomeIteratorExt::into_ordered(outcomes);
            let ghost ord0 = ord@;
            let mut v = ord;
            let mut vals: Vec<O> = Vec::new();
            while v.len() > 0
                invariant
                    v@.len() <= ord0.len(),
                    v@ == ord0.subrange(ord0.len() - v@.len(), ord0.len() as int),
                    crate::iter::ordered_reassembly(src, ord0),
                    forall|k: int|
                        0 <= k < src.len() ==> !(#[trigger] src[k]).spec_is_failure(),
                    forall|k: int|
                        0 <= k < vals@.len() ==> batch_success_value(src, #[trigger] vals@[k]),
                    vals@.len() <= ord0.len() - v@.len(),
                    vals@ == success_outputs(ord0.take(ord0.len() - v@.len())),
                    !crate::iter::has_index(src, ord0.len() as int),
                decreases v@.len(),
            {
                let ghost n = ord0.len() - v@.len();
                let o = v.remove(0);
                proof {
                    assert(o == ord0[n]);
                    assert(v@ =~= ord0.subrange(n + 1, ord0.len() as int));
                    assert(src.contains(ord0[n]));
                    let j = choose|j: int| 0 <= j < src.len() && src[j] == ord0[n];
                    assert(!src[j].spec_is_failure());
                    assert(ord0.take(n + 1).drop_last() =~= ord0.take(n));
                    assert(ord0.take(n + 1).last() == ord0[n]);
                }
                match o {
                    Outcome::Success { value, .. } => {
                        proof {
                            let j = choose|j: int| 0 <= j < src.len() && src[j] == ord0[n];
                            assert(src[j] matches Outcome::Success { value: v2, .. } && v2
                                == value);
                        }
                        vals.push(value);
                    },
                    Outcome::Unprocessed { .. } => {},
                    _ => vstd::pervasive::unreached(),
                }
            }
            proof {
                assert(v@.len() == 0);
                assert(ord0.take(ord0.len() as int) =~= ord0);
                assert(vals@ == success_outputs(ord0));
                assert(crate::iter::ordered_reassembly(src, ord0) && !crate::iter::has_index(
                    src,
                    ord0.len() as int,
                ) && vals@ == success_outputs(ord0));
                if (forall|k: int| 0 <= k < src.len() ==> (#[trigger] src[k]) is Success)
                    && indices_within(src) {
                    crate::iter::lemma_complete_indices(src);
                    assert(ord0.len() == src.len()) by {
                        if ord0.len() < src.len() {
                            assert(crate::iter::has_index(src, ord0.len() as int));
                        }
                    }
                    assert forall|k: int| 0 <= k < ord0.len() implies (
                    #[trigger] ord0[k]) is Success by {
                        let j = choose|j: int| 0 <= j < src.len() && src[j] == ord0[k];
                    }
                    lemma_success_outputs_all_success(ord0);
                    assert forall|k: int| 0 <= k < vals@.len() implies crate::iter::output_at_index(
                        src,
                        k,
                        #[trigger] vals@[k],
                    ) by {
                        let j = choose|j: int| 0 <= j < src.len() && src[j] == ord0[k];
                        assert(src[j].spec_index() == k && vals@[k] == spec_output_of(src[j]));
                    }
                }
            }
            Ok(vals)
        }
    }

    /// Returns the outcomes that count as failures: element `m` is the
    /// `m`-th failure of the batch in collection order.
    pub fn iter_failures(&self) -> (r: Vec<&Outcome<I, O, E>>)
        ensures
            r@.len() == count_failures(self@),
            r@.len() == failures_of(self@).len(),
            forall|m: int| 0 <= m < r@.len() ==> *(#[trigger] r@[m]) == failures_of(self@)[m],
    {
        let mut out: Vec<&Outcome<I, O, E>> = Vec::new();
        let mut k: usize = 0;
        while k < self.outcomes.len()
            invariant
                k <= self.outcomes.len(),
                out@.len() == count_failures(self@.take(k as int)),
                out@.len() == failures_of(self@.take(k as int)).len(),
                forall|m: int|
                    0 <= m < out@.len() ==> *(#[trigger] out@[m]) == failures_of(
                        self@.take(k as int),
                    )[m],
            decreases self.outcomes.len() - k,
        {
            proof {
                assert(self@.take(k + 1).drop_last() =~= self@.take(k as int));
                assert(self@.take(k + 1).last() == self@[k as int]);
            }
            if self.outcomes[k].is_failure() {
                out.push(&self.outcomes[k]);
                proof {
                    let m = out@.len() - 1;
                    assert(self@[k as int] == *out@[m]);
                    assert(failures_of(self@.take(k + 1)) == failures_of(
                        self@.take(k as int),
                    ).push(self@[k as int]));
                }
            }
            k = k + 1;
        }
        proof {
            assert(self@.take(self@.len() as int) =~= self@);
        }
        out
    }
}

} // verus!
