use vstd::prelude::*;

verus! {

/// Bounded retry policy: the number of extra attempts allowed after a failed first one.
///
/// An operation run under a policy of `n` is attempted at least once and at most `n + 1`
/// times; the run ends at the first success, or with the outcome of the last attempt.
pub struct Retryer(pub usize);

/// What to do once an attempt has produced its outcome.
pub enum RetryStep<T, E> {
    /// Start a fresh attempt; the failure just seen is discarded.
    Again,
    /// The run is over and this is its outcome.
    Finish(Result<T, E>),
}

/// Whether a run under `extra` extra attempts ends with attempt number `attempt`
/// (counted from 1), given whether that attempt succeeded.
pub open spec fn stops_after(extra: nat, attempt: nat, succeeded: bool) -> bool {
    succeeded || attempt > extra
}

/// The number of attempts a run makes when attempt `k` succeeds exactly when
/// `succeeds[k - 1]` holds, once `done` attempts have been made without ending it.
/// A run is cut short when `succeeds` has no entry for the next attempt.
pub open spec fn calls_from(extra: nat, succeeds: Seq<bool>, done: nat) -> nat
    decreases succeeds.len() - done,
{
    if done >= succeeds.len() {
        done
    } else if stops_after(extra, done + 1, succeeds[done as int]) {
        done + 1
    } else {
        calls_from(extra, succeeds, done + 1)
    }
}

/// The number of attempts a whole run makes (see `calls_from`).
pub open spec fn calls_made(extra: nat, succeeds: Seq<bool>) -> nat {
    calls_from(extra, succeeds, 0)
}

impl Retryer {
    /// A policy that allows `retry_count` extra attempts after the first one.
    pub fn new(retry_count: usize) -> (r: Self)
        ensures
            r.0 == retry_count,
    {
        Retryer(retry_count)
    }

    /// Decides, after attempt number `attempt` (counted from 1) produced `result`,
    /// whether the run ends with that result or makes a fresh attempt.
    pub fn settle<T, E>(&self, attempt: usize, result: Result<T, E>) -> (r: RetryStep<T, E>)
        requires
            1 <= attempt <= self.0 + 1,
        ensures
            stops_after(self.0 as nat, attempt as nat, result is Ok) ==> r == RetryStep::Finish(
                result,
            ),
            !stops_after(self.0 as nat, attempt as nat, result is Ok) ==> r is Again,
    {
        match result {
            Ok(v) => RetryStep::Finish(Ok(v)),
            Err(e) => {
                if attempt > self.0 {
                    RetryStep::Finish(Err(e))
                } else {
                    RetryStep::Again
                }
            },
        }
    }
}

proof fn lemma_calls_from_first_stop(extra: nat, succeeds: Seq<bool>, done: nat, k: nat)
    requires
        done < k <= succeeds.len(),
        stops_after(extra, k, succeeds[k - 1]),
        forall|j: int| done <= j < k - 1 ==> !stops_after(extra, (j + 1) as nat, #[trigger] succeeds[j]),
    ensures
        calls_from(extra, succeeds, done) == k,
    decreases k - done,
{
    if done + 1 < k {
        lemma_calls_from_first_stop(extra, succeeds, done + 1, k);
    }
}

/// A factory that always fails is called exactly `extra + 1` times, and the run
/// ends with a failure.
pub proof fn lemma_always_failing_runs_to_limit(extra: nat, succeeds: Seq<bool>)
    requires
        succeeds.len() >= extra + 1,
        forall|i: int| 0 <= i < succeeds.len() ==> !succeeds[i],
    ensures
        calls_made(extra, succeeds) == extra + 1,
        !succeeds[calls_made(extra, succeeds) - 1],
{
    lemma_calls_from_first_stop(extra, succeeds, 0, extra + 1);
}

/// A factory whose first success comes at call `k`, with `k <= extra + 1`, is called
/// exactly `k` times, and the run ends with that success.
pub proof fn lemma_first_success_ends_run(extra: nat, succeeds: Seq<bool>, k: nat)
    requires
        1 <= k <= extra + 1,
        k <= succeeds.len(),
        succeeds[k - 1],
        forall|i: int| 0 <= i < k - 1 ==> !succeeds[i],
    ensures
        calls_made(extra, succeeds) == k,
        succeeds[calls_made(extra, succeeds) - 1],
{
    lemma_calls_from_first_stop(extra, succeeds, 0, k);
}

} // verus!
