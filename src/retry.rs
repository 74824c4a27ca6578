//! The retry policy for page fetches.
//!
//! A fetch that fails is tried again, up to a fixed number of retries; past
//! that the scan is aborted. The policy is a state machine: the caller makes
//! the attempt, hands its outcome to [`RetryState::on_outcome`], and does what
//! the returned [`RetryStep`] says.
use vstd::prelude::*;

verus! {

/// The number of retries that a page fetch is allowed.
pub const MAX_RETRIES: usize = 10;

/// Why a scan was aborted: every allowed attempt at a fetch failed.
#[derive(Debug)]
pub struct ScanAborted<E> {
    /// How many times the fetch was attempted.
    pub attempts: usize,
    /// The error of the last attempt.
    pub last_error: E,
}

/// What to do after an attempt.
#[derive(Debug)]
pub enum RetryStep<T, E> {
    /// The attempt succeeded: use its value.
    Done(T),
    /// The attempt failed with this error: attempt again.
    Retry(E),
    /// The attempt failed and no retry is left: abort the scan.
    Abort(ScanAborted<E>),
}

/// The retry count of one fetch.
pub struct RetryState {
    retries: usize,
    max_retries: usize,
}

/// The retry count after an attempt with `outcome`, and what to do next.
pub open spec fn next_step<T, E>(retries: nat, max_retries: nat, outcome: Result<T, E>) -> (
    nat,
    RetryStep<T, E>,
) {
    match outcome {
        Ok(t) => (retries, RetryStep::Done(t)),
        Err(e) => if retries >= max_retries {
            (retries, RetryStep::Abort(ScanAborted { attempts: (retries + 1) as usize, last_error: e }))
        } else {
            (retries + 1, RetryStep::Retry(e))
        },
    }
}

/// Runs a fetch whose successive attempts have `outcomes`, starting with
/// `retries` retries spent: how many attempts are made and the final step, or
/// `None` if `outcomes` runs out first.
pub open spec fn run_attempts<T, E>(retries: nat, max_retries: nat, outcomes: Seq<Result<T, E>>) -> Option<
    (nat, RetryStep<T, E>),
>
    decreases outcomes.len(),
{
    if outcomes.len() == 0 {
        None
    } else {
        let (next, step) = next_step(retries, max_retries, outcomes[0]);
        match step {
            RetryStep::Retry(_) => match run_attempts(next, max_retries, outcomes.drop_first()) {
                Some((n, last)) => Some((n + 1, last)),
                None => None,
            },
            _ => Some((1, step)),
        }
    }
}

impl RetryState {
    pub closed spec fn retries(&self) -> nat {
        self.retries as nat
    }

    pub closed spec fn max_retries(&self) -> nat {
        self.max_retries as nat
    }

    pub open spec fn wf(&self) -> bool {
        self.retries() <= self.max_retries() < usize::MAX
    }

    pub fn new(max_retries: usize) -> (r: RetryState)
        requires
            max_retries < usize::MAX,
        ensures
            r.wf(),
            r.retries() == 0,
            r.max_retries() == max_retries,
    {
        RetryState { retries: 0, max_retries }
    }

    /// Takes the outcome of an attempt and says what to do next.
    pub fn on_outcome<T, E>(&mut self, outcome: Result<T, E>) -> (r: RetryStep<T, E>)
        requires
            old(self).wf(),
        ensures
            final(self).wf(),
            final(self).max_retries() == old(self).max_retries(),
            (final(self).retries(), r) == next_step(
                old(self).retries(),
                old(self).max_retries(),
                outcome,
            ),
    {
        match outcome {
            Ok(t) => RetryStep::Done(t),
            Err(e) => {
                if self.retries >= self.max_retries {
                    RetryStep::Abort(ScanAborted { attempts: self.retries + 1, last_error: e })
                } else {
                    self.retries = self.retries + 1;
                    RetryStep::Retry(e)
                }
            },
        }
    }
}

proof fn lemma_fail_then_succeed<T, E>(retries: nat, max_retries: nat, outcomes: Seq<Result<T, E>>, k: nat, v: T)
    requires
        retries + k <= max_retries,
        k < outcomes.len(),
        forall|i: int| 0 <= i < k ==> #[trigger] outcomes[i] is Err,
        outcomes[k as int] == Ok::<T, E>(v),
    ensures
        run_attempts(retries, max_retries, outcomes) == Some((k + 1, RetryStep::<T, E>::Done(v))),
    decreases k,
{
    if k > 0 {
        let tail = outcomes.drop_first();
        assert(outcomes[0] is Err);
        assert forall|i: int| 0 <= i < k - 1 implies #[trigger] tail[i] is Err by {
            assert(outcomes[i + 1] is Err);
        }
        lemma_fail_then_succeed(retries + 1, max_retries, tail, (k - 1) as nat, v);
    }
}

/// Retries do not change what a fetch returns: if the first `k` attempts fail,
/// `k` within the bound, and the next succeeds, the fetch yields exactly what a
/// single successful attempt yields, after `k + 1` attempts.
pub proof fn lemma_retry_transparent<T, E>(max_retries: nat, outcomes: Seq<Result<T, E>>, k: nat, v: T)
    requires
        k <= max_retries,
        k < outcomes.len(),
        forall|i: int| 0 <= i < k ==> #[trigger] outcomes[i] is Err,
        outcomes[k as int] == Ok::<T, E>(v),
    ensures
        run_attempts(0, max_retries, outcomes) == Some((k + 1, RetryStep::<T, E>::Done(v))),
        run_attempts(0, max_retries, seq![Ok::<T, E>(v)]) == Some((1nat, RetryStep::<T, E>::Done(v))),
{
    lemma_fail_then_succeed(0, max_retries, outcomes, k, v);
}

proof fn lemma_always_fails<T, E>(retries: nat, max_retries: nat, outcomes: Seq<Result<T, E>>)
    requires
        retries <= max_retries < usize::MAX,
        max_retries - retries < outcomes.len(),
        forall|i: int| 0 <= i < outcomes.len() ==> #[trigger] outcomes[i] is Err,
    ensures
        run_attempts(retries, max_retries, outcomes) == Some((
            (max_retries - retries + 1) as nat,
            RetryStep::<T, E>::Abort(ScanAborted {
                attempts: (max_retries + 1) as usize,
                last_error: outcomes[max_retries - retries]->Err_0,
            }),
        )),
    decreases max_retries - retries,
{
    assert(outcomes[0] is Err);
    if retries < max_retries {
        let tail = outcomes.drop_first();
        assert forall|i: int| 0 <= i < tail.len() implies #[trigger] tail[i] is Err by {
            assert(outcomes[i + 1] is Err);
        }
        lemma_always_fails(retries + 1, max_retries, tail);
        assert(tail[max_retries - (retries + 1)] == outcomes[max_retries - retries]);
    }
}

/// A fetch that always fails is attempted exactly `max_retries + 1` times,
/// then the scan is aborted with the last attempt's error.
pub proof fn lemma_retry_exhausted<T, E>(max_retries: nat, outcomes: Seq<Result<T, E>>)
    requires
        max_retries < usize::MAX,
        max_retries < outcomes.len(),
        forall|i: int| 0 <= i < outcomes.len() ==> #[trigger] outcomes[i] is Err,
    ensures
        run_attempts(0, max_retries, outcomes) == Some((
            max_retries + 1,
            RetryStep::<T, E>::Abort(ScanAborted {
                attempts: (max_retries + 1) as usize,
                last_error: outcomes[max_retries as int]->Err_0,
            }),
        )),
{
    lemma_always_fails(0, max_retries, outcomes);
}

} // verus!
