//! Pool configuration: the builder that fixes the worker count, the retry
//! budget and the retry backoff policy, and the backoff computation itself.

use vstd::prelude::*;
use vstd::arithmetic::mul::lemma_mul_inequality;

verus! {

/// Two raised to the given power.
pub open spec fn pow2(e: nat) -> nat
    decreases e,
{
    if e == 0 {
        1
    } else {
        2 * pow2((e - 1) as nat)
    }
}

/// Powers of two are positive.
pub proof fn lemma_pow2_pos(e: nat)
    ensures
        pow2(e) >= 1,
    decreases e,
{
    if e > 0 {
        lemma_pow2_pos((e - 1) as nat);
    }
}

/// Powers of two grow with the exponent.
pub proof fn lemma_pow2_mono(a: nat, b: nat)
    requires
        a <= b,
    ensures
        pow2(a) <= pow2(b),
    decreases b,
{
    if a < b {
        lemma_pow2_mono(a, (b - 1) as nat);
        lemma_pow2_pos((b - 1) as nat);
    }
}

/// The delay before the retry after the given zero-based attempt: the base
/// delay doubled once per attempt, capped at `cap`.
pub open spec fn backoff_spec(base: nat, attempt: nat, cap: nat) -> nat {
    if base * pow2(attempt) <= cap {
        base * pow2(attempt)
    } else {
        cap
    }
}

/// Computes the retry backoff delay in nanoseconds: `base` doubled once per
/// attempt, capped at `cap`.
pub fn backoff_nanos(base: u64, attempt: u32, cap: u64) -> (r: u64)
    ensures
        r == backoff_spec(base as nat, attempt as nat, cap as nat),
{
    if base == 0 {
        return 0;
    }
    if base > cap {
        proof {
            lemma_pow2_pos(attempt as nat);
            lemma_mul_inequality(1, pow2(attempt as nat) as int, base as int);
        }
        return cap;
    }
    let mut cur = base;
    let mut k: u32 = 0;
    proof {
        assert(pow2(0) == 1);
    }
    while k < attempt
        invariant
            k <= attempt,
            base >= 1,
            cur == base * pow2(k as nat),
            cur <= cap,
        decreases attempt - k,
    {
        proof {
            assert(pow2((k + 1) as nat) == 2 * pow2(k as nat));
            assert(base * (2 * pow2(k as nat)) == 2 * (base * pow2(k as nat)))
                by (nonlinear_arith);
        }
        if cur > cap / 2 {
            proof {
                lemma_pow2_mono((k + 1) as nat, attempt as nat);
                lemma_mul_inequality(
                    pow2((k + 1) as nat) as int,
                    pow2(attempt as nat) as int,
                    base as int,
                );
                assert(pow2((k + 1) as nat) * base <= pow2(attempt as nat) * base);
                assert(pow2((k + 1) as nat) * base == base * pow2((k + 1) as nat))
                    by (nonlinear_arith);
                assert(pow2(attempt as nat) * base == base * pow2(attempt as nat))
                    by (nonlinear_arith);
                assert(base * pow2((k + 1) as nat) == 2 * cur);
                assert(2 * cur > cap);
                assert(base * pow2(attempt as nat) > cap);
            }
            return cap;
        }
        cur = cur * 2;
        k = k + 1;
    }
    cur
}

/// Configuration of a hive: the worker-thread count, the retry budget, and
/// the backoff policy applied between retries of one task. The delay before
/// the retry after attempt `a` is the base delay doubled `a` times, capped
/// at the maximum delay.
pub struct Builder {
    num_threads: usize,
    max_retries: u32,
    retry_base_nanos: u64,
    retry_max_nanos: u64,
    thread_name_prefix: Option<String>,
}

/// The default retry base delay: 100 milliseconds, in nanoseconds.
pub const DEFAULT_RETRY_BASE_NANOS: u64 = 100_000_000;

/// The default retry delay cap: 30 seconds, in nanoseconds.
pub const DEFAULT_RETRY_MAX_NANOS: u64 = 30_000_000_000;

impl Builder {
    /// The configured worker-thread count.
    pub closed spec fn spec_num_threads(self) -> usize {
        self.num_threads
    }

    /// The configured retry budget.
    pub closed spec fn spec_max_retries(self) -> u32 {
        self.max_retries
    }

    /// The configured retry base delay, in nanoseconds.
    pub closed spec fn spec_retry_base_nanos(self) -> u64 {
        self.retry_base_nanos
    }

    /// The configured retry delay cap, in nanoseconds.
    pub closed spec fn spec_retry_max_nanos(self) -> u64 {
        self.retry_max_nanos
    }

    /// The configured worker-thread name prefix.
    pub closed spec fn spec_thread_name_prefix(self) -> Option<String> {
        self.thread_name_prefix
    }

    /// Sets the number of worker threads; at least one is required.
    pub fn num_threads(self, num_threads: usize) -> (r: Builder)
        requires
            num_threads >= 1,
        ensures
            r.spec_num_threads() == num_threads,
            r.spec_max_retries() == self.spec_max_retries(),
            r.spec_retry_base_nanos() == self.spec_retry_base_nanos(),
            r.spec_retry_max_nanos() == self.spec_retry_max_nanos(),
            r.spec_thread_name_prefix() == self.spec_thread_name_prefix(),
    {
        Builder { num_threads, ..self }
    }

    /// Sets how many additional attempts a retryable failure is given.
    pub fn max_retries(self, max_retries: u32) -> (r: Builder)
        ensures
            r.spec_max_retries() == max_retries,
            r.spec_num_threads() == self.spec_num_threads(),
            r.spec_retry_base_nanos() == self.spec_retry_base_nanos(),
            r.spec_retry_max_nanos() == self.spec_retry_max_nanos(),
            r.spec_thread_name_prefix() == self.spec_thread_name_prefix(),
    {
        Builder { max_retries, ..self }
    }

    /// Sets the base retry delay, in nanoseconds.
    pub fn retry_base_nanos(self, retry_base_nanos: u64) -> (r: Builder)
        ensures
            r.spec_retry_base_nanos() == retry_base_nanos,
            r.spec_num_threads() == self.spec_num_threads(),
            r.spec_max_retries() == self.spec_max_retries(),
            r.spec_retry_max_nanos() == self.spec_retry_max_nanos(),
            r.spec_thread_name_prefix() == self.spec_thread_name_prefix(),
    {
        Builder { retry_base_nanos, ..self }
    }

    /// Sets the cap on the retry delay, in nanoseconds.
    pub fn retry_max_nanos(self, retry_max_nanos: u64) -> (r: Builder)
        ensures
            r.spec_retry_max_nanos() == retry_max_nanos,
            r.spec_num_threads() == self.spec_num_threads(),
            r.spec_max_retries() == self.spec_max_retries(),
            r.spec_retry_base_nanos() == self.spec_retry_base_nanos(),
            r.spec_thread_name_prefix() == self.spec_thread_name_prefix(),
    {
        Builder { retry_max_nanos, ..self }
    }

    /// Sets the name prefix given to worker threads.
    pub fn thread_name_prefix(self, prefix: String) -> (r: Builder)
        ensures
            r.spec_thread_name_prefix() == Some(prefix),
            r.spec_num_threads() == self.spec_num_threads(),
            r.spec_max_retries() == self.spec_max_retries(),
            r.spec_retry_base_nanos() == self.spec_retry_base_nanos(),
            r.spec_retry_max_nanos() == self.spec_retry_max_nanos(),
    {
        Builder { thread_name_prefix: Some(prefix), ..self }
    }

    /// Returns the configured number of worker threads.
    pub fn get_num_threads(&self) -> (r: usize)
        ensures
            r == self.spec_num_threads(),
    {
        self.num_threads
    }

    /// Returns the configured retry budget.
    pub fn get_max_retries(&self) -> (r: u32)
        ensures
            r == self.spec_max_retries(),
    {
        self.max_retries
    }

    /// Returns the configured retry base delay, in nanoseconds.
    pub fn get_retry_base_nanos(&self) -> (r: u64)
        ensures
            r == self.spec_retry_base_nanos(),
    {
        self.retry_base_nanos
    }

    /// Returns the configured retry delay cap, in nanoseconds.
    pub fn get_retry_max_nanos(&self) -> (r: u64)
        ensures
            r == self.spec_retry_max_nanos(),
    {
        self.retry_max_nanos
    }

    /// Returns the configured worker-thread name prefix, if any.
    pub fn get_thread_name_prefix(&self) -> (r: &Option<String>)
        ensures
            *r == self.spec_thread_name_prefix(),
    {
        &self.thread_name_prefix
    }

    /// Returns the delay before the retry after the given zero-based
    /// attempt, under this configuration.
    pub fn backoff_for(&self, attempt: u32) -> (r: u64)
        ensures
            r == backoff_spec(
                self.spec_retry_base_nanos() as nat,
                attempt as nat,
                self.spec_retry_max_nanos() as nat,
            ),
    {
        backoff_nanos(self.retry_base_nanos, attempt, self.retry_max_nanos)
    }
}

impl Default for Builder {
    /// One worker thread, no retries, a 100 ms base delay and a 30 s cap.
    fn default() -> (r: Builder)
        ensures
            r.spec_num_threads() == 1,
            r.spec_max_retries() == 0,
            r.spec_retry_base_nanos() == DEFAULT_RETRY_BASE_NANOS,
            r.spec_retry_max_nanos() == DEFAULT_RETRY_MAX_NANOS,
            r.spec_thread_name_prefix() is None,
    {
        Builder {
            num_threads: 1,
            max_retries: 0,
            retry_base_nanos: DEFAULT_RETRY_BASE_NANOS,
            retry_max_nanos: DEFAULT_RETRY_MAX_NANOS,
            thread_name_prefix: None,
        }
    }
}

} // verus!
